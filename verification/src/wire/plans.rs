//! Plans as messages.

use crate::wire::exprs::{
    expr_fields, expr_fields_are_sound, expr_of, expr_reads_back, nesting, operand_nesting,
    operand_of, operand_reads_back, operand_slot, push_operand, read_expr, read_operand, write_expr,
    WireExpr, WireExprView,
};
use crate::wire::fields::{
    all_sound, message_bytes, message_reads_back, parse_message, parsed, payload_is_shorter,
    raw_views, short_is_writable, FieldValue, RawField, RawView, ValueView,
};
use crate::wire::schema::{
    code, code_inverts_unsigned, read_schema, schema_fields, schema_of, schema_reads_back, to_code,
    to_unsigned, unsigned, write_schema, WireSchema, WireSchemaView,
};
use crate::wire::slots::{
    all_passable, flag_slot, low_half, merged, merged_in, message_field, message_field_reads_back,
    number, number_in, number_slot, number_slot_reads_back, numbers, numbers_in, numbers_slot,
    numbers_slot_reads_back, occurrences_extend, occurs_in, one_more, passable, plus_nothing,
    push_flag, push_message, push_number, push_numbers, push_text_slot, slots_are_sound,
    slots_stand_apart, text, text_in, text_slot, text_slot_reads_back, with_tag, with_tag_of_tagged,
};
use vstd::prelude::*;

verus! {

// ---- sort keys

/// A sort key of a message.
pub struct WireSort {
    pub expr: WireExpr,
    pub ascending: bool,
    pub nulls_first: bool,
}

pub struct WireSortView {
    pub expr: WireExprView,
    pub ascending: bool,
    pub nulls_first: bool,
}

impl View for WireSort {
    type V = WireSortView;

    open spec fn view(&self) -> WireSortView {
        WireSortView { expr: self.expr@, ascending: self.ascending, nulls_first: self.nulls_first }
    }
}

pub open spec fn wire_sort_views(sorts: Seq<WireSort>) -> Seq<WireSortView> {
    Seq::new(sorts.len(), |i: int| sorts[i]@)
}

pub open spec fn wire_expr_views(exprs: Seq<WireExpr>) -> Seq<WireExprView> {
    Seq::new(exprs.len(), |i: int| exprs[i]@)
}

pub open spec fn sort_of(fields: Seq<RawView>, depth: nat) -> Option<WireSortView> {
    if !passable(fields, 1, 3, depth) {
        None
    } else {
        match (
            operand_of(with_tag(fields, 1), depth),
            number(with_tag(fields, 2)),
            number(with_tag(fields, 3)),
        ) {
            (Some(expr), Some(ascending), Some(nulls_first)) => Some(
                WireSortView { expr, ascending: ascending != 0, nulls_first: nulls_first != 0 },
            ),
            _ => None,
        }
    }
}

pub open spec fn sort_fields(sort: WireSortView) -> Seq<RawView> {
    operand_slot(1, sort.expr) + flag_slot(2, sort.ascending) + flag_slot(3, sort.nulls_first)
}

/// A sort key that was written reads back.
pub proof fn sort_reads_back(sort: WireSortView, depth: nat)
    requires
        operand_nesting(sort.expr) <= depth,
        message_bytes(sort_fields(sort)).len() <= u64::MAX,
    ensures
        sort_of(sort_fields(sort), depth) == Some(sort),
{
    broadcast use number_slot_reads_back;

    let none = Seq::<RawView>::empty();
    let fields = sort_fields(sort);
    assert(fields =~= operand_slot(1, sort.expr) + flag_slot(2, sort.ascending) + flag_slot(
        3,
        sort.nulls_first,
    ) + none + none + none + none);
    slots_stand_apart(
        operand_slot(1, sort.expr),
        flag_slot(2, sort.ascending),
        flag_slot(3, sort.nulls_first),
        none,
        none,
        none,
        none,
        fields,
    );
    operand_reads_back(1, sort.expr, depth);
    assert(depth == 0 ==> passable(fields, 1, 3, depth)) by {
        assert forall|i: int| 0 <= i < fields.len() implies 1 <= (#[trigger] fields[i]).tag
            <= 3 by {}
    }
}

pub proof fn sort_fields_are_sound(sort: WireSortView)
    ensures
        all_sound(sort_fields(sort)),
{
}

fn read_sort(fields: &Vec<RawField>, depth: u32) -> (r: Option<WireSort>)
    ensures
        match r {
            Some(sort) => sort_of(raw_views(fields@), depth as nat) == Some(sort@),
            None => sort_of(raw_views(fields@), depth as nat) is None,
        },
{
    let to: usize = fields.len();
    proof {
        assert(raw_views(fields@).subrange(0, to as int) =~= raw_views(fields@));
    }
    if !all_passable(fields, 1, 3, depth) {
        return None;
    }
    match (
        read_operand(fields, 1, depth),
        number_in(fields, 0, to, 2),
        number_in(fields, 0, to, 3),
    ) {
        (Some(expr), Some(ascending), Some(nulls_first)) => Some(
            WireSort { expr, ascending: ascending != 0, nulls_first: nulls_first != 0 },
        ),
        _ => None,
    }
}

fn write_sort(sort: &WireSort) -> (r: Vec<RawField>)
    ensures
        raw_views(r@) == sort_fields(sort@),
        all_sound(raw_views(r@)),
{
    let mut fields: Vec<RawField> = Vec::new();
    proof {
        assert(raw_views(fields@) =~= Seq::empty());
        sort_fields_are_sound(sort@);
    }
    push_operand(&mut fields, 1, &sort.expr);
    push_flag(&mut fields, 2, sort.ascending);
    push_flag(&mut fields, 3, sort.nulls_first);
    proof {
        assert(raw_views(fields@) =~= sort_fields(sort@));
    }
    fields
}


// ---- lists of exprs

/// The list that the occurrences of a field make together.
#[verifier::opaque]
pub open spec fn exprs_of(occurrences: Seq<RawView>, depth: nat) -> Option<Seq<WireExprView>>
    decreases occurrences.len(),
{
    if occurrences.len() == 0 {
        Some(Seq::empty())
    } else if depth == 0 {
        None
    } else {
        match (exprs_of(occurrences.drop_last(), depth), occurrences.last().value) {
            (Some(earlier), ValueView::Bytes(bytes)) => match parsed(bytes, (depth - 1) as nat) {
                None => None,
                Some(fields) => match expr_of(fields, (depth - 1) as nat) {
                    None => None,
                    Some(one) => Some(earlier.push(one)),
                },
            },
            _ => None,
        }
    }
}

/// A list, each of its members in a field of its own.
pub open spec fn exprs_slot(tag: u32, list: Seq<WireExprView>) -> Seq<RawView> {
    Seq::new(list.len(), |i: int| message_field(tag, expr_fields(list[i])))
}

/// Whether the members of a list stand within each other no deeper than is read.
pub open spec fn exprs_fit(list: Seq<WireExprView>, depth: nat) -> bool {
    forall|i: int|
        #![trigger list[i]]
        0 <= i < list.len() ==> !(list[i] is Absent) && nesting(list[i]) < depth
}

proof fn exprs_stay_bad(occurrences: Seq<RawView>, more: Seq<RawView>, depth: nat)
    requires
        exprs_of(occurrences, depth) is None,
    ensures
        exprs_of(occurrences + more, depth) is None,
    decreases more.len(),
{
    reveal(exprs_of);
    if more.len() > 0 {
        exprs_stay_bad(occurrences, more.drop_last(), depth);
        assert((occurrences + more).drop_last() =~= occurrences + more.drop_last());
    } else {
        assert(occurrences + more =~= occurrences);
    }
}

/// A list that was written reads back.
pub proof fn exprs_read_back(tag: u32, list: Seq<WireExprView>, depth: nat)
    requires
        exprs_fit(list, depth),
        message_bytes(exprs_slot(tag, list)).len() <= u64::MAX,
    ensures
        exprs_of(exprs_slot(tag, list), depth) == Some(list),
    decreases list.len(),
{
    reveal(exprs_of);
    let occurrences = exprs_slot(tag, list);
    if list.len() > 0 {
        reveal(message_bytes);
        assert(occurrences.drop_last() =~= exprs_slot(tag, list.drop_last()));
        assert forall|i: int|
            #![trigger list.drop_last()[i]]
            0 <= i < list.drop_last().len() implies
            !(list.drop_last()[i] is Absent) && nesting(list.drop_last()[i]) < depth by {
            assert(list.drop_last()[i] == list[i]);
        }
        exprs_read_back(tag, list.drop_last(), depth);
        let last = list[list.len() - 1];
        let fields = expr_fields(last);
        payload_is_shorter(occurrences, occurrences.len() - 1);
        expr_fields_are_sound(last);
        expr_reads_back(last, (depth - 1) as nat);
        short_is_writable(fields);
        message_reads_back(fields, (depth - 1) as nat);
        assert(list.drop_last().push(last) =~= list);
    } else {
        assert(list =~= Seq::empty());
    }
}

fn read_exprs(fields: &Vec<RawField>, tag: u32, depth: u32) -> (r: Option<Vec<WireExpr>>)
    ensures
        match r {
            Some(list) => exprs_of(with_tag(raw_views(fields@), tag), depth as nat) == Some(
                wire_expr_views(list@),
            ),
            None => exprs_of(with_tag(raw_views(fields@), tag), depth as nat) is None,
        },
{
    let ghost views = raw_views(fields@);
    let mut list: Vec<WireExpr> = Vec::new();
    let to: usize = fields.len();
    proof {
        assert(views.subrange(0, 0) =~= Seq::empty());
        reveal(with_tag);
        reveal(exprs_of);
        assert(views.subrange(0, to as int) =~= views);
        assert(wire_expr_views(list@) =~= Seq::empty());
    }
    for i in 0..to
        invariant
            to == fields.len(),
            views == raw_views(fields@),
            views.subrange(0, to as int) == views,
            exprs_of(with_tag(views.subrange(0, i as int), tag), depth as nat) == Some(
                wire_expr_views(list@),
            ),
    {
        let ghost part = with_tag(views.subrange(0, i + 1), tag);
        proof {
            reveal(exprs_of);
            one_more(views, 0, i as int, tag);
            occurrences_extend(views, 0, i + 1, to as int, tag);
            if exprs_of(part, depth as nat) is None {
                exprs_stay_bad(
                    part,
                    with_tag(views.subrange(i + 1, to as int), tag),
                    depth as nat,
                );
            }
            assert(views[i as int] == fields@[i as int]@);
            let earlier = with_tag(views.subrange(0, i as int), tag);
            assert(earlier.push(views[i as int]).drop_last() =~= earlier);
        }
        if fields[i].tag == tag {
            if depth == 0 {
                return None;
            }
            let inner = match &fields[i].value {
                FieldValue::Bytes(bytes) => match parse_message(bytes, depth - 1) {
                    Some(inner) => inner,
                    None => return None,
                },
                _ => return None,
            };
            let ghost earlier = wire_expr_views(list@);
            match read_expr(&inner, depth - 1) {
                Some(one) => {
                    list.push(one);
                    proof {
                        assert(wire_expr_views(list@) =~= earlier.push(one@));
                    }
                },
                None => return None,
            }
        }
    }
    Some(list)
}

fn push_exprs(fields: &mut Vec<RawField>, tag: u32, list: &Vec<WireExpr>)
    ensures
        raw_views(final(fields)@) == raw_views(old(fields)@)
            + exprs_slot(tag, wire_expr_views(list@)),
{
    let ghost earlier = raw_views(fields@);
    let ghost slot = exprs_slot(tag, wire_expr_views(list@));
    for i in 0..list.len()
        invariant
            slot == exprs_slot(tag, wire_expr_views(list@)),
            raw_views(fields@) =~= earlier + slot.take(i as int),
    {
        let inner = write_expr(&list[i]);
        push_message(fields, tag, &inner);
    }
    proof {
        assert(slot.take(list.len() as int) =~= slot);
    }
}


// ---- lists of sorts

/// The list that the occurrences of a field make together.
#[verifier::opaque]
pub open spec fn sorts_of(occurrences: Seq<RawView>, depth: nat) -> Option<Seq<WireSortView>>
    decreases occurrences.len(),
{
    if occurrences.len() == 0 {
        Some(Seq::empty())
    } else if depth == 0 {
        None
    } else {
        match (sorts_of(occurrences.drop_last(), depth), occurrences.last().value) {
            (Some(earlier), ValueView::Bytes(bytes)) => match parsed(bytes, (depth - 1) as nat) {
                None => None,
                Some(fields) => match sort_of(fields, (depth - 1) as nat) {
                    None => None,
                    Some(one) => Some(earlier.push(one)),
                },
            },
            _ => None,
        }
    }
}

/// A list, each of its members in a field of its own.
pub open spec fn sorts_slot(tag: u32, list: Seq<WireSortView>) -> Seq<RawView> {
    Seq::new(list.len(), |i: int| message_field(tag, sort_fields(list[i])))
}

/// Whether the members of a list stand within each other no deeper than is read.
pub open spec fn sorts_fit(list: Seq<WireSortView>, depth: nat) -> bool {
    forall|i: int| #![trigger list[i]] 0 <= i < list.len() ==> operand_nesting(list[i].expr) < depth
}

proof fn sorts_stay_bad(occurrences: Seq<RawView>, more: Seq<RawView>, depth: nat)
    requires
        sorts_of(occurrences, depth) is None,
    ensures
        sorts_of(occurrences + more, depth) is None,
    decreases more.len(),
{
    reveal(sorts_of);
    if more.len() > 0 {
        sorts_stay_bad(occurrences, more.drop_last(), depth);
        assert((occurrences + more).drop_last() =~= occurrences + more.drop_last());
    } else {
        assert(occurrences + more =~= occurrences);
    }
}

/// A list that was written reads back.
pub proof fn sorts_read_back(tag: u32, list: Seq<WireSortView>, depth: nat)
    requires
        sorts_fit(list, depth),
        message_bytes(sorts_slot(tag, list)).len() <= u64::MAX,
    ensures
        sorts_of(sorts_slot(tag, list), depth) == Some(list),
    decreases list.len(),
{
    reveal(sorts_of);
    let occurrences = sorts_slot(tag, list);
    if list.len() > 0 {
        reveal(message_bytes);
        assert(occurrences.drop_last() =~= sorts_slot(tag, list.drop_last()));
        assert forall|i: int|
            #![trigger list.drop_last()[i]]
            0 <= i < list.drop_last().len() implies
            operand_nesting(list.drop_last()[i].expr) < depth by {
            assert(list.drop_last()[i] == list[i]);
        }
        sorts_read_back(tag, list.drop_last(), depth);
        let last = list[list.len() - 1];
        let fields = sort_fields(last);
        payload_is_shorter(occurrences, occurrences.len() - 1);
        sort_fields_are_sound(last);
        sort_reads_back(last, (depth - 1) as nat);
        short_is_writable(fields);
        message_reads_back(fields, (depth - 1) as nat);
        assert(list.drop_last().push(last) =~= list);
    } else {
        assert(list =~= Seq::empty());
    }
}

fn read_sorts(fields: &Vec<RawField>, tag: u32, depth: u32) -> (r: Option<Vec<WireSort>>)
    ensures
        match r {
            Some(list) => sorts_of(with_tag(raw_views(fields@), tag), depth as nat) == Some(
                wire_sort_views(list@),
            ),
            None => sorts_of(with_tag(raw_views(fields@), tag), depth as nat) is None,
        },
{
    let ghost views = raw_views(fields@);
    let mut list: Vec<WireSort> = Vec::new();
    let to: usize = fields.len();
    proof {
        assert(views.subrange(0, 0) =~= Seq::empty());
        reveal(with_tag);
        reveal(sorts_of);
        assert(views.subrange(0, to as int) =~= views);
        assert(wire_sort_views(list@) =~= Seq::empty());
    }
    for i in 0..to
        invariant
            to == fields.len(),
            views == raw_views(fields@),
            views.subrange(0, to as int) == views,
            sorts_of(with_tag(views.subrange(0, i as int), tag), depth as nat) == Some(
                wire_sort_views(list@),
            ),
    {
        let ghost part = with_tag(views.subrange(0, i + 1), tag);
        proof {
            reveal(sorts_of);
            one_more(views, 0, i as int, tag);
            occurrences_extend(views, 0, i + 1, to as int, tag);
            if sorts_of(part, depth as nat) is None {
                sorts_stay_bad(
                    part,
                    with_tag(views.subrange(i + 1, to as int), tag),
                    depth as nat,
                );
            }
            assert(views[i as int] == fields@[i as int]@);
            let earlier = with_tag(views.subrange(0, i as int), tag);
            assert(earlier.push(views[i as int]).drop_last() =~= earlier);
        }
        if fields[i].tag == tag {
            if depth == 0 {
                return None;
            }
            let inner = match &fields[i].value {
                FieldValue::Bytes(bytes) => match parse_message(bytes, depth - 1) {
                    Some(inner) => inner,
                    None => return None,
                },
                _ => return None,
            };
            let ghost earlier = wire_sort_views(list@);
            match read_sort(&inner, depth - 1) {
                Some(one) => {
                    list.push(one);
                    proof {
                        assert(wire_sort_views(list@) =~= earlier.push(one@));
                    }
                },
                None => return None,
            }
        }
    }
    Some(list)
}

fn push_sorts(fields: &mut Vec<RawField>, tag: u32, list: &Vec<WireSort>)
    ensures
        raw_views(final(fields)@) == raw_views(old(fields)@)
            + sorts_slot(tag, wire_sort_views(list@)),
{
    let ghost earlier = raw_views(fields@);
    let ghost slot = sorts_slot(tag, wire_sort_views(list@));
    for i in 0..list.len()
        invariant
            slot == sorts_slot(tag, wire_sort_views(list@)),
            raw_views(fields@) =~= earlier + slot.take(i as int),
    {
        let inner = write_sort(&list[i]);
        push_message(fields, tag, &inner);
    }
    proof {
        assert(slot.take(list.len() as int) =~= slot);
    }
}


// ---- schemas that may be missing

pub open spec fn schema_view(schema: Option<WireSchema>) -> Option<WireSchemaView> {
    match schema {
        Some(schema) => Some(schema@),
        None => None,
    }
}

pub open spec fn schema_slot(tag: u32, schema: Option<WireSchemaView>) -> Seq<RawView> {
    match schema {
        Some(schema) => seq![message_field(tag, schema_fields(schema))],
        None => Seq::empty(),
    }
}

pub open spec fn optional_schema(occurrences: Seq<RawView>, depth: nat) -> Option<
    Option<WireSchemaView>,
> {
    if occurrences.len() == 0 {
        Some(None)
    } else if depth == 0 {
        None
    } else {
        match merged(occurrences, depth) {
            None => None,
            Some(fields) => match schema_of(fields, (depth - 1) as nat) {
                Some(schema) => Some(Some(schema)),
                None => None,
            },
        }
    }
}

pub proof fn schema_slot_reads_back(tag: u32, schema: Option<WireSchemaView>, depth: nat)
    requires
        depth >= 3,
        message_bytes(schema_slot(tag, schema)).len() <= u64::MAX,
    ensures
        optional_schema(schema_slot(tag, schema), depth) == Some(schema),
{
    if let Some(inner) = schema {
        payload_is_shorter(schema_slot(tag, schema), 0);
        schema_reads_back(inner, (depth - 1) as nat);
        short_is_writable(schema_fields(inner));
        message_field_reads_back(tag, schema_fields(inner), depth);
    }
}

fn read_optional_schema(fields: &Vec<RawField>, tag: u32, depth: u32) -> (r: Option<
    Option<WireSchema>,
>)
    ensures
        match r {
            Some(schema) => optional_schema(with_tag(raw_views(fields@), tag), depth as nat)
                == Some(schema_view(schema)),
            None => optional_schema(with_tag(raw_views(fields@), tag), depth as nat) is None,
        },
{
    let to: usize = fields.len();
    proof {
        assert(raw_views(fields@).subrange(0, to as int) =~= raw_views(fields@));
    }
    if !occurs_in(fields, 0, to, tag) {
        return Some(None);
    }
    if depth == 0 {
        return None;
    }
    match merged_in(fields, 0, to, tag, depth) {
        None => None,
        Some(inner) => match read_schema(&inner, depth - 1) {
            Some(schema) => Some(Some(schema)),
            None => None,
        },
    }
}

fn push_schema(fields: &mut Vec<RawField>, tag: u32, schema: &Option<WireSchema>)
    ensures
        raw_views(final(fields)@) == raw_views(old(fields)@)
            + schema_slot(tag, schema_view(*schema)),
{
    let ghost earlier = raw_views(fields@);
    if let Some(schema) = schema {
        let inner = write_schema(schema);
        push_message(fields, tag, &inner);
    }
    proof {
        assert(raw_views(fields@) =~= earlier + schema_slot(tag, schema_view(*schema)));
    }
}

// ---- plans

/// An operator of a message with its inputs. An input that is not there is `Absent`, a message that
/// says nothing of its kind `Empty`.
#[allow(inconsistent_fields)]
pub enum WirePlan {
    Absent,
    Empty,
    Scan {
        id: u32,
        table_name: String,
        has_projection: bool,
        projection: Vec<u32>,
        filters: Vec<WireExpr>,
        schema: Option<WireSchema>,
    },
    Projection {
        id: u32,
        input: Box<WirePlan>,
        exprs: Vec<WireExpr>,
        schema: Option<WireSchema>,
    },
    Filter {
        id: u32,
        input: Box<WirePlan>,
        predicate: WireExpr,
        schema: Option<WireSchema>,
    },
    HashAggregate {
        id: u32,
        input: Box<WirePlan>,
        group_exprs: Vec<WireExpr>,
        aggregate_exprs: Vec<WireExpr>,
        schema: Option<WireSchema>,
    },
    Sort {
        id: u32,
        input: Box<WirePlan>,
        exprs: Vec<WireSort>,
        schema: Option<WireSchema>,
    },
    TopK {
        id: u32,
        input: Box<WirePlan>,
        exprs: Vec<WireSort>,
        limit: u64,
        schema: Option<WireSchema>,
    },
    Limit {
        id: u32,
        input: Box<WirePlan>,
        limit: u64,
        schema: Option<WireSchema>,
    },
    HashJoin {
        id: u32,
        left: Box<WirePlan>,
        right: Box<WirePlan>,
        join_type: i32,
        left_on: Vec<WireExpr>,
        right_on: Vec<WireExpr>,
        schema: Option<WireSchema>,
    },
}

#[allow(inconsistent_fields)]
pub enum WirePlanView {
    Absent,
    Empty,
    Scan {
        id: u32,
        table_name: Seq<char>,
        has_projection: bool,
        projection: Seq<u32>,
        filters: Seq<WireExprView>,
        schema: Option<WireSchemaView>,
    },
    Projection {
        id: u32,
        input: Box<WirePlanView>,
        exprs: Seq<WireExprView>,
        schema: Option<WireSchemaView>,
    },
    Filter {
        id: u32,
        input: Box<WirePlanView>,
        predicate: WireExprView,
        schema: Option<WireSchemaView>,
    },
    HashAggregate {
        id: u32,
        input: Box<WirePlanView>,
        group_exprs: Seq<WireExprView>,
        aggregate_exprs: Seq<WireExprView>,
        schema: Option<WireSchemaView>,
    },
    Sort {
        id: u32,
        input: Box<WirePlanView>,
        exprs: Seq<WireSortView>,
        schema: Option<WireSchemaView>,
    },
    TopK {
        id: u32,
        input: Box<WirePlanView>,
        exprs: Seq<WireSortView>,
        limit: u64,
        schema: Option<WireSchemaView>,
    },
    Limit {
        id: u32,
        input: Box<WirePlanView>,
        limit: u64,
        schema: Option<WireSchemaView>,
    },
    HashJoin {
        id: u32,
        left: Box<WirePlanView>,
        right: Box<WirePlanView>,
        join_type: i32,
        left_on: Seq<WireExprView>,
        right_on: Seq<WireExprView>,
        schema: Option<WireSchemaView>,
    },
}

pub open spec fn wire_plan_view(plan: WirePlan) -> WirePlanView
    decreases plan,
{
    match plan {
        WirePlan::Absent => WirePlanView::Absent,
        WirePlan::Empty => WirePlanView::Empty,
        WirePlan::Scan { id, table_name, has_projection, projection, filters, schema } =>
            WirePlanView::Scan {
            id,
            table_name: table_name@,
            has_projection,
            projection: projection@,
            filters: wire_expr_views(filters@),
            schema: schema_view(schema),
        },
        WirePlan::Projection { id, input, exprs, schema } => WirePlanView::Projection {
            id,
            input: Box::new(wire_plan_view(*input)),
            exprs: wire_expr_views(exprs@),
            schema: schema_view(schema),
        },
        WirePlan::Filter { id, input, predicate, schema } => WirePlanView::Filter {
            id,
            input: Box::new(wire_plan_view(*input)),
            predicate: predicate@,
            schema: schema_view(schema),
        },
        WirePlan::HashAggregate { id, input, group_exprs, aggregate_exprs, schema } =>
            WirePlanView::HashAggregate {
            id,
            input: Box::new(wire_plan_view(*input)),
            group_exprs: wire_expr_views(group_exprs@),
            aggregate_exprs: wire_expr_views(aggregate_exprs@),
            schema: schema_view(schema),
        },
        WirePlan::Sort { id, input, exprs, schema } => WirePlanView::Sort {
            id,
            input: Box::new(wire_plan_view(*input)),
            exprs: wire_sort_views(exprs@),
            schema: schema_view(schema),
        },
        WirePlan::TopK { id, input, exprs, limit, schema } => WirePlanView::TopK {
            id,
            input: Box::new(wire_plan_view(*input)),
            exprs: wire_sort_views(exprs@),
            limit,
            schema: schema_view(schema),
        },
        WirePlan::Limit { id, input, limit, schema } => WirePlanView::Limit {
            id,
            input: Box::new(wire_plan_view(*input)),
            limit,
            schema: schema_view(schema),
        },
        WirePlan::HashJoin { id, left, right, join_type, left_on, right_on, schema } =>
            WirePlanView::HashJoin {
            id,
            left: Box::new(wire_plan_view(*left)),
            right: Box::new(wire_plan_view(*right)),
            join_type,
            left_on: wire_expr_views(left_on@),
            right_on: wire_expr_views(right_on@),
            schema: schema_view(schema),
        },
    }
}

impl View for WirePlan {
    type V = WirePlanView;

    open spec fn view(&self) -> WirePlanView {
        wire_plan_view(*self)
    }
}

/// The plan that the occurrences of an input make together.
pub open spec fn input_of(occurrences: Seq<RawView>, depth: nat) -> Option<WirePlanView>
    decreases depth, 3int, 0int,
{
    if occurrences.len() == 0 {
        Some(WirePlanView::Absent)
    } else if depth == 0 {
        None
    } else {
        match merged(occurrences, depth) {
            None => None,
            Some(fields) => plan_of(fields, (depth - 1) as nat),
        }
    }
}

/// The plan that a message holds.
#[verifier::opaque]
pub open spec fn plan_of(fields: Seq<RawView>, depth: nat) -> Option<WirePlanView>
    decreases depth, 2int, 0int,
{
    if !passable(fields, 1, 8, depth) {
        None
    } else {
        match plan_runs(fields, fields.len() as int, depth) {
            None => None,
            Some(None) => Some(WirePlanView::Empty),
            Some(Some((from, tag))) => plan_kind(
                fields.subrange(from, fields.len() as int),
                tag,
                depth,
            ),
        }
    }
}

/// Where the last run of one kind starts among the first `upto` fields, and its number. Nothing
/// where an earlier run is not sound.
pub open spec fn plan_runs(fields: Seq<RawView>, upto: int, depth: nat) -> Option<
    Option<(int, u32)>,
>
    decreases depth, 1int, upto,
{
    if upto <= 0 {
        Some(None)
    } else {
        let tag = fields[upto - 1].tag;
        match plan_runs(fields, upto - 1, depth) {
            None => None,
            Some(run) => if !(1 <= tag <= 8) || (run is Some && run->Some_0.1 == tag) {
                Some(run)
            } else if run is Some && plan_kind(
                fields.subrange(run->Some_0.0, upto - 1),
                run->Some_0.1,
                depth,
            ) is None {
                None
            } else {
                Some(Some((upto - 1, tag)))
            },
        }
    }
}

/// The plan that a run of fields of one kind makes.
pub open spec fn plan_kind(run: Seq<RawView>, tag: u32, depth: nat) -> Option<WirePlanView>
    decreases depth, 0int, 1int,
{
    if depth == 0 {
        None
    } else {
        match merged(with_tag(run, tag), depth) {
            None => None,
            Some(body) => plan_body(body, tag, (depth - 1) as nat),
        }
    }
}


/// The scan that a message holds.
pub open spec fn scan_body(body: Seq<RawView>, depth: nat) -> Option<WirePlanView>
    decreases depth, 4int, 0int,
{
    if !passable(body, 1, 6, depth) {
        None
    } else {
        match (
            number(with_tag(body, 1)),
            text(with_tag(body, 2)),
            number(with_tag(body, 3)),
            numbers(with_tag(body, 4)),
            exprs_of(with_tag(body, 5), depth),
            optional_schema(with_tag(body, 6), depth),
        ) {
            (Some(id), Some(table_name), Some(has_projection), Some(projection), Some(filters), Some(schema)) => Some(
                WirePlanView::Scan {
                    id: low_half(id as nat),
                    table_name,
                    has_projection: has_projection != 0,
                    projection,
                    filters,
                    schema,
                },
            ),
            _ => None,
        }
    }
}

/// The projection that a message holds.
pub open spec fn projection_body(body: Seq<RawView>, depth: nat) -> Option<WirePlanView>
    decreases depth, 4int, 0int,
{
    if !passable(body, 1, 4, depth) {
        None
    } else {
        match (
            number(with_tag(body, 1)),
            input_of(with_tag(body, 2), depth),
            exprs_of(with_tag(body, 3), depth),
            optional_schema(with_tag(body, 4), depth),
        ) {
            (Some(id), Some(input), Some(exprs), Some(schema)) => Some(
                WirePlanView::Projection {
                    id: low_half(id as nat),
                    input: Box::new(input),
                    exprs,
                    schema,
                },
            ),
            _ => None,
        }
    }
}

/// The filter that a message holds.
pub open spec fn filter_body(body: Seq<RawView>, depth: nat) -> Option<WirePlanView>
    decreases depth, 4int, 0int,
{
    if !passable(body, 1, 4, depth) {
        None
    } else {
        match (
            number(with_tag(body, 1)),
            input_of(with_tag(body, 2), depth),
            operand_of(with_tag(body, 3), depth),
            optional_schema(with_tag(body, 4), depth),
        ) {
            (Some(id), Some(input), Some(predicate), Some(schema)) => Some(
                WirePlanView::Filter {
                    id: low_half(id as nat),
                    input: Box::new(input),
                    predicate,
                    schema,
                },
            ),
            _ => None,
        }
    }
}

/// The hash aggregate that a message holds.
pub open spec fn hash_aggregate_body(body: Seq<RawView>, depth: nat) -> Option<WirePlanView>
    decreases depth, 4int, 0int,
{
    if !passable(body, 1, 5, depth) {
        None
    } else {
        match (
            number(with_tag(body, 1)),
            input_of(with_tag(body, 2), depth),
            exprs_of(with_tag(body, 3), depth),
            exprs_of(with_tag(body, 4), depth),
            optional_schema(with_tag(body, 5), depth),
        ) {
            (Some(id), Some(input), Some(group_exprs), Some(aggregate_exprs), Some(schema)) => Some(
                WirePlanView::HashAggregate {
                    id: low_half(id as nat),
                    input: Box::new(input),
                    group_exprs,
                    aggregate_exprs,
                    schema,
                },
            ),
            _ => None,
        }
    }
}

/// The sort that a message holds.
pub open spec fn sort_body(body: Seq<RawView>, depth: nat) -> Option<WirePlanView>
    decreases depth, 4int, 0int,
{
    if !passable(body, 1, 4, depth) {
        None
    } else {
        match (
            number(with_tag(body, 1)),
            input_of(with_tag(body, 2), depth),
            sorts_of(with_tag(body, 3), depth),
            optional_schema(with_tag(body, 4), depth),
        ) {
            (Some(id), Some(input), Some(exprs), Some(schema)) => Some(
                WirePlanView::Sort {
                    id: low_half(id as nat),
                    input: Box::new(input),
                    exprs,
                    schema,
                },
            ),
            _ => None,
        }
    }
}

/// The top k that a message holds.
pub open spec fn top_k_body(body: Seq<RawView>, depth: nat) -> Option<WirePlanView>
    decreases depth, 4int, 0int,
{
    if !passable(body, 1, 5, depth) {
        None
    } else {
        match (
            number(with_tag(body, 1)),
            input_of(with_tag(body, 2), depth),
            sorts_of(with_tag(body, 3), depth),
            number(with_tag(body, 4)),
            optional_schema(with_tag(body, 5), depth),
        ) {
            (Some(id), Some(input), Some(exprs), Some(limit), Some(schema)) => Some(
                WirePlanView::TopK {
                    id: low_half(id as nat),
                    input: Box::new(input),
                    exprs,
                    limit,
                    schema,
                },
            ),
            _ => None,
        }
    }
}

/// The limit that a message holds.
pub open spec fn limit_body(body: Seq<RawView>, depth: nat) -> Option<WirePlanView>
    decreases depth, 4int, 0int,
{
    if !passable(body, 1, 4, depth) {
        None
    } else {
        match (
            number(with_tag(body, 1)),
            input_of(with_tag(body, 2), depth),
            number(with_tag(body, 3)),
            optional_schema(with_tag(body, 4), depth),
        ) {
            (Some(id), Some(input), Some(limit), Some(schema)) => Some(
                WirePlanView::Limit {
                    id: low_half(id as nat),
                    input: Box::new(input),
                    limit,
                    schema,
                },
            ),
            _ => None,
        }
    }
}

/// The hash join that a message holds.
pub open spec fn hash_join_body(body: Seq<RawView>, depth: nat) -> Option<WirePlanView>
    decreases depth, 4int, 0int,
{
    if !passable(body, 1, 7, depth) {
        None
    } else {
        match (
            number(with_tag(body, 1)),
            input_of(with_tag(body, 2), depth),
            input_of(with_tag(body, 3), depth),
            number(with_tag(body, 4)),
            exprs_of(with_tag(body, 5), depth),
            exprs_of(with_tag(body, 6), depth),
            optional_schema(with_tag(body, 7), depth),
        ) {
            (Some(id), Some(left), Some(right), Some(join_type), Some(left_on), Some(right_on), Some(schema)) => Some(
                WirePlanView::HashJoin {
                    id: low_half(id as nat),
                    left: Box::new(left),
                    right: Box::new(right),
                    join_type: code(join_type),
                    left_on,
                    right_on,
                    schema,
                },
            ),
            _ => None,
        }
    }
}

/// The operator that a message of one kind holds.
pub open spec fn plan_body(body: Seq<RawView>, tag: u32, depth: nat) -> Option<WirePlanView>
    decreases depth, 5int, 0int,
{
    if tag == 1 {
        scan_body(body, depth)
    } else if tag == 2 {
        projection_body(body, depth)
    } else if tag == 3 {
        filter_body(body, depth)
    } else if tag == 4 {
        hash_aggregate_body(body, depth)
    } else if tag == 5 {
        sort_body(body, depth)
    } else if tag == 6 {
        top_k_body(body, depth)
    } else if tag == 7 {
        limit_body(body, depth)
    } else {
        hash_join_body(body, depth)
    }
}

/// An input, unless it is absent.
pub open spec fn input_slot(tag: u32, plan: WirePlanView) -> Seq<RawView>
    decreases plan, 2int,
{
    if plan is Absent {
        Seq::empty()
    } else {
        seq![message_field(tag, plan_fields(plan))]
    }
}

/// The number of an operator's kind.
pub open spec fn plan_tag(plan: WirePlanView) -> u32 {
    match plan {
        WirePlanView::Absent | WirePlanView::Empty => 0,
        WirePlanView::Scan { .. } => 1,
        WirePlanView::Projection { .. } => 2,
        WirePlanView::Filter { .. } => 3,
        WirePlanView::HashAggregate { .. } => 4,
        WirePlanView::Sort { .. } => 5,
        WirePlanView::TopK { .. } => 6,
        WirePlanView::Limit { .. } => 7,
        WirePlanView::HashJoin { .. } => 8,
    }
}

/// The message within the message of a plan.
pub open spec fn operator_fields(plan: WirePlanView) -> Seq<RawView>
    decreases plan, 0int,
{
    match plan {
        WirePlanView::Absent | WirePlanView::Empty => Seq::empty(),
        WirePlanView::Scan { id, table_name, has_projection, projection, filters, schema } =>
            number_slot(1, id as u64) + text_slot(2, table_name) + flag_slot(3, has_projection)
            + numbers_slot(4, projection) + exprs_slot(5, filters) + schema_slot(6, schema),
        WirePlanView::Projection { id, input, exprs, schema } => number_slot(1, id as u64)
            + input_slot(2, *input) + exprs_slot(3, exprs) + schema_slot(4, schema),
        WirePlanView::Filter { id, input, predicate, schema } => number_slot(1, id as u64)
            + input_slot(2, *input) + operand_slot(3, predicate) + schema_slot(4, schema),
        WirePlanView::HashAggregate { id, input, group_exprs, aggregate_exprs, schema } =>
            number_slot(1, id as u64) + input_slot(2, *input) + exprs_slot(3, group_exprs)
            + exprs_slot(4, aggregate_exprs) + schema_slot(5, schema),
        WirePlanView::Sort { id, input, exprs, schema } => number_slot(1, id as u64)
            + input_slot(2, *input) + sorts_slot(3, exprs) + schema_slot(4, schema),
        WirePlanView::TopK { id, input, exprs, limit, schema } => number_slot(1, id as u64)
            + input_slot(2, *input) + sorts_slot(3, exprs) + number_slot(4, limit)
            + schema_slot(5, schema),
        WirePlanView::Limit { id, input, limit, schema } => number_slot(1, id as u64)
            + input_slot(2, *input) + number_slot(3, limit) + schema_slot(4, schema),
        WirePlanView::HashJoin { id, left, right, join_type, left_on, right_on, schema } =>
            number_slot(1, id as u64) + input_slot(2, *left) + input_slot(3, *right)
            + number_slot(4, unsigned(join_type as i64)) + exprs_slot(5, left_on)
            + exprs_slot(6, right_on) + schema_slot(7, schema),
    }
}

/// The message of a plan.
pub open spec fn plan_fields(plan: WirePlanView) -> Seq<RawView>
    decreases plan, 1int,
{
    match plan {
        WirePlanView::Absent | WirePlanView::Empty => Seq::empty(),
        _ => seq![message_field(plan_tag(plan), operator_fields(plan))],
    }
}

/// Whether messages stand within each other in that of a plan no deeper than is read.
pub open spec fn plan_fits(plan: WirePlanView, depth: nat) -> bool
    decreases plan,
{
    match plan {
        WirePlanView::Absent | WirePlanView::Empty => true,
        WirePlanView::Scan { filters, .. } => depth >= 4 && exprs_fit(filters, (depth - 1) as nat),
        WirePlanView::Projection { input, exprs, .. } => depth >= 4
            && (*input is Absent || (depth >= 2 && plan_fits(*input, (depth - 2) as nat)))
            && exprs_fit(exprs, (depth - 1) as nat),
        WirePlanView::Filter { input, predicate, .. } => depth >= 4
            && (*input is Absent || (depth >= 2 && plan_fits(*input, (depth - 2) as nat)))
            && operand_nesting(predicate) < depth,
        WirePlanView::HashAggregate { input, group_exprs, aggregate_exprs, .. } => depth >= 4
            && (*input is Absent || (depth >= 2 && plan_fits(*input, (depth - 2) as nat)))
            && exprs_fit(group_exprs, (depth - 1) as nat)
            && exprs_fit(aggregate_exprs, (depth - 1) as nat),
        WirePlanView::Sort { input, exprs, .. } => depth >= 4
            && (*input is Absent || (depth >= 2 && plan_fits(*input, (depth - 2) as nat)))
            && sorts_fit(exprs, (depth - 1) as nat),
        WirePlanView::TopK { input, exprs, .. } => depth >= 4
            && (*input is Absent || (depth >= 2 && plan_fits(*input, (depth - 2) as nat)))
            && sorts_fit(exprs, (depth - 1) as nat),
        WirePlanView::Limit { input, .. } => depth >= 4 && (*input is Absent || (depth >= 2
            && plan_fits(*input, (depth - 2) as nat))),
        WirePlanView::HashJoin { left, right, left_on, right_on, .. } => depth >= 4
            && (*left is Absent || (depth >= 2 && plan_fits(*left, (depth - 2) as nat)))
            && (*right is Absent || (depth >= 2 && plan_fits(*right, (depth - 2) as nat)))
            && exprs_fit(left_on, (depth - 1) as nat) && exprs_fit(right_on, (depth - 1) as nat),
    }
}


pub proof fn plan_fields_are_sound(plan: WirePlanView)
    ensures
        all_sound(plan_fields(plan)),
        all_sound(operator_fields(plan)),
{
    let none = Seq::<RawView>::empty();
    match plan {
        WirePlanView::Scan { id, table_name, has_projection, projection, filters, schema } => {
            slots_are_sound(
                number_slot(1, id as u64),
                text_slot(2, table_name),
                flag_slot(3, has_projection),
                numbers_slot(4, projection),
                exprs_slot(5, filters),
                schema_slot(6, schema),
                none,
            );
            plus_nothing(operator_fields(plan));
        },
        WirePlanView::Projection { id, input, exprs, schema } => {
            slots_are_sound(
                number_slot(1, id as u64),
                input_slot(2, *input),
                exprs_slot(3, exprs),
                schema_slot(4, schema),
                none,
                none,
                none,
            );
            plus_nothing(operator_fields(plan));
        },
        WirePlanView::Filter { id, input, predicate, schema } => {
            slots_are_sound(
                number_slot(1, id as u64),
                input_slot(2, *input),
                operand_slot(3, predicate),
                schema_slot(4, schema),
                none,
                none,
                none,
            );
            plus_nothing(operator_fields(plan));
        },
        WirePlanView::HashAggregate { id, input, group_exprs, aggregate_exprs, schema } => {
            slots_are_sound(
                number_slot(1, id as u64),
                input_slot(2, *input),
                exprs_slot(3, group_exprs),
                exprs_slot(4, aggregate_exprs),
                schema_slot(5, schema),
                none,
                none,
            );
            plus_nothing(operator_fields(plan));
        },
        WirePlanView::Sort { id, input, exprs, schema } => {
            slots_are_sound(
                number_slot(1, id as u64),
                input_slot(2, *input),
                sorts_slot(3, exprs),
                schema_slot(4, schema),
                none,
                none,
                none,
            );
            plus_nothing(operator_fields(plan));
        },
        WirePlanView::TopK { id, input, exprs, limit, schema } => {
            slots_are_sound(
                number_slot(1, id as u64),
                input_slot(2, *input),
                sorts_slot(3, exprs),
                number_slot(4, limit),
                schema_slot(5, schema),
                none,
                none,
            );
            plus_nothing(operator_fields(plan));
        },
        WirePlanView::Limit { id, input, limit, schema } => {
            slots_are_sound(
                number_slot(1, id as u64),
                input_slot(2, *input),
                number_slot(3, limit),
                schema_slot(4, schema),
                none,
                none,
                none,
            );
            plus_nothing(operator_fields(plan));
        },
        WirePlanView::HashJoin { id, left, right, join_type, left_on, right_on, schema } => {
            slots_are_sound(
                number_slot(1, id as u64),
                input_slot(2, *left),
                input_slot(3, *right),
                number_slot(4, unsigned(join_type as i64)),
                exprs_slot(5, left_on),
                exprs_slot(6, right_on),
                schema_slot(7, schema),
            );
            plus_nothing(operator_fields(plan));
        },
        _ => {},
    }
}


/// An input that was written reads back.
pub proof fn input_reads_back(tag: u32, plan: WirePlanView, depth: nat)
    requires
        plan is Absent || (depth >= 1 && plan_fits(plan, (depth - 1) as nat)),
        message_bytes(input_slot(tag, plan)).len() <= u64::MAX,
    ensures
        input_of(input_slot(tag, plan), depth) == Some(plan),
    decreases plan, 2int,
{
    reveal(plan_of);
    if !(plan is Absent) {
        payload_is_shorter(input_slot(tag, plan), 0);
        plan_fields_are_sound(plan);
        short_is_writable(plan_fields(plan));
        message_field_reads_back(tag, plan_fields(plan), depth);
        plan_reads_back(plan, (depth - 1) as nat);
    }
}

/// A plan that was written reads back.
pub proof fn plan_reads_back(plan: WirePlanView, depth: nat)
    requires
        !(plan is Absent),
        plan_fits(plan, depth),
        message_bytes(plan_fields(plan)).len() <= u64::MAX,
    ensures
        plan_of(plan_fields(plan), depth) == Some(plan),
    decreases plan, 1int,
{
    reveal(plan_of);
    let fields = plan_fields(plan);
    if plan is Empty {
        assert(fields =~= Seq::empty());
    } else {
        let tag = plan_tag(plan);
        reveal_with_fuel(plan_runs, 2);
        assert(fields[0].tag == tag);
        assert(plan_runs(fields, 1, depth) == Some(Some((0int, tag))));
        assert(fields.subrange(0, 1) =~= fields);
        with_tag_of_tagged(fields, tag, tag);
        let body = operator_fields(plan);
        payload_is_shorter(fields, 0);
        plan_fields_are_sound(plan);
        short_is_writable(body);
        message_field_reads_back(tag, body, depth);
        operator_reads_back(plan, (depth - 1) as nat);
    }
}


/// The parts of a message stand apart.
proof fn scan_slots(
    id: u32,
    table_name: Seq<char>,
    has_projection: bool,
    projection: Seq<u32>,
    filters: Seq<WireExprView>,
    schema: Option<WireSchemaView>,
    body: Seq<RawView>,
)
    requires
        body == number_slot(1, id as u64) + text_slot(2, table_name)
            + flag_slot(3, has_projection) + numbers_slot(4, projection)
            + exprs_slot(5, filters) + schema_slot(6, schema),
    ensures
        with_tag(body, 1) == number_slot(1, id as u64),
        message_bytes(number_slot(1, id as u64)).len() <= message_bytes(body).len(),
        with_tag(body, 2) == text_slot(2, table_name),
        message_bytes(text_slot(2, table_name)).len() <= message_bytes(body).len(),
        with_tag(body, 3) == flag_slot(3, has_projection),
        message_bytes(flag_slot(3, has_projection)).len() <= message_bytes(body).len(),
        with_tag(body, 4) == numbers_slot(4, projection),
        message_bytes(numbers_slot(4, projection)).len() <= message_bytes(body).len(),
        with_tag(body, 5) == exprs_slot(5, filters),
        message_bytes(exprs_slot(5, filters)).len() <= message_bytes(body).len(),
        with_tag(body, 6) == schema_slot(6, schema),
        message_bytes(schema_slot(6, schema)).len() <= message_bytes(body).len(),
{
    let none = Seq::<RawView>::empty();
    plus_nothing(body);
    slots_stand_apart(
        number_slot(1, id as u64),
        text_slot(2, table_name),
        flag_slot(3, has_projection),
        numbers_slot(4, projection),
        exprs_slot(5, filters),
        schema_slot(6, schema),
        none,
        body,
    );
}

/// Parts that read well make a message that does.
proof fn scan_assembles(
    id: u32,
    table_name: Seq<char>,
    has_projection: bool,
    projection: Seq<u32>,
    filters: Seq<WireExprView>,
    schema: Option<WireSchemaView>,
    body: Seq<RawView>,
    depth: nat,
)
    requires
        depth > 0,
        number(with_tag(body, 1)) == Some(id as u64),
        text(with_tag(body, 2)) == Some(table_name),
        number(with_tag(body, 3)) == Some(if has_projection { 1u64 } else { 0u64 }),
        numbers(with_tag(body, 4)) == Some(projection),
        exprs_of(with_tag(body, 5), depth) == Some(filters),
        optional_schema(with_tag(body, 6), depth) == Some(schema),
    ensures
        scan_body(body, depth)
            == Some(WirePlanView::Scan { id, table_name, has_projection, projection, filters, schema }),
{
    broadcast use code_inverts_unsigned;

}

proof fn scan_operator_reads_back(plan: WirePlanView, depth: nat)
    requires
        plan is Scan,
        plan_fits(plan, depth + 1),
        message_bytes(operator_fields(plan)).len() <= u64::MAX,
    ensures
        scan_body(operator_fields(plan), depth) == Some(plan),
    decreases plan, 0int, 0int,
{
    let body = operator_fields(plan);
    if let WirePlanView::Scan { id, table_name, has_projection, projection, filters, schema } = plan {
        scan_slots(id, table_name, has_projection, projection, filters, schema, body);
        number_slot_reads_back(1, id as u64);
        text_slot_reads_back(2, table_name);
        number_slot_reads_back(3, if has_projection { 1 } else { 0 });
        numbers_slot_reads_back(4, projection);
        exprs_read_back(5, filters, depth);
        schema_slot_reads_back(6, schema, depth);
        scan_assembles(id, table_name, has_projection, projection, filters, schema, body, depth);
    }
}

/// The parts of a message stand apart.
proof fn projection_slots(
    id: u32,
    input: WirePlanView,
    exprs: Seq<WireExprView>,
    schema: Option<WireSchemaView>,
    body: Seq<RawView>,
)
    requires
        body == number_slot(1, id as u64) + input_slot(2, input) + exprs_slot(3, exprs)
            + schema_slot(4, schema),
    ensures
        with_tag(body, 1) == number_slot(1, id as u64),
        message_bytes(number_slot(1, id as u64)).len() <= message_bytes(body).len(),
        with_tag(body, 2) == input_slot(2, input),
        message_bytes(input_slot(2, input)).len() <= message_bytes(body).len(),
        with_tag(body, 3) == exprs_slot(3, exprs),
        message_bytes(exprs_slot(3, exprs)).len() <= message_bytes(body).len(),
        with_tag(body, 4) == schema_slot(4, schema),
        message_bytes(schema_slot(4, schema)).len() <= message_bytes(body).len(),
{
    let none = Seq::<RawView>::empty();
    plus_nothing(body);
    slots_stand_apart(
        number_slot(1, id as u64),
        input_slot(2, input),
        exprs_slot(3, exprs),
        schema_slot(4, schema),
        none,
        none,
        none,
        body,
    );
}

/// Parts that read well make a message that does.
proof fn projection_assembles(
    id: u32,
    input: WirePlanView,
    exprs: Seq<WireExprView>,
    schema: Option<WireSchemaView>,
    body: Seq<RawView>,
    depth: nat,
)
    requires
        depth > 0,
        number(with_tag(body, 1)) == Some(id as u64),
        input_of(with_tag(body, 2), depth) == Some(input),
        exprs_of(with_tag(body, 3), depth) == Some(exprs),
        optional_schema(with_tag(body, 4), depth) == Some(schema),
    ensures
        projection_body(body, depth)
            == Some(WirePlanView::Projection { id, input: Box::new(input), exprs, schema }),
{
    broadcast use code_inverts_unsigned;

}

proof fn projection_operator_reads_back(plan: WirePlanView, depth: nat)
    requires
        plan is Projection,
        plan_fits(plan, depth + 1),
        message_bytes(operator_fields(plan)).len() <= u64::MAX,
    ensures
        projection_body(operator_fields(plan), depth) == Some(plan),
    decreases plan, 0int, 0int,
{
    let body = operator_fields(plan);
    if let WirePlanView::Projection { id, input, exprs, schema } = plan {
        projection_slots(id, *input, exprs, schema, body);
        number_slot_reads_back(1, id as u64);
        input_reads_back(2, *input, depth);
        exprs_read_back(3, exprs, depth);
        schema_slot_reads_back(4, schema, depth);
        projection_assembles(id, *input, exprs, schema, body, depth);
    }
}

/// The parts of a message stand apart.
proof fn filter_slots(
    id: u32,
    input: WirePlanView,
    predicate: WireExprView,
    schema: Option<WireSchemaView>,
    body: Seq<RawView>,
)
    requires
        body == number_slot(1, id as u64) + input_slot(2, input) + operand_slot(3, predicate)
            + schema_slot(4, schema),
    ensures
        with_tag(body, 1) == number_slot(1, id as u64),
        message_bytes(number_slot(1, id as u64)).len() <= message_bytes(body).len(),
        with_tag(body, 2) == input_slot(2, input),
        message_bytes(input_slot(2, input)).len() <= message_bytes(body).len(),
        with_tag(body, 3) == operand_slot(3, predicate),
        message_bytes(operand_slot(3, predicate)).len() <= message_bytes(body).len(),
        with_tag(body, 4) == schema_slot(4, schema),
        message_bytes(schema_slot(4, schema)).len() <= message_bytes(body).len(),
{
    let none = Seq::<RawView>::empty();
    plus_nothing(body);
    slots_stand_apart(
        number_slot(1, id as u64),
        input_slot(2, input),
        operand_slot(3, predicate),
        schema_slot(4, schema),
        none,
        none,
        none,
        body,
    );
}

/// Parts that read well make a message that does.
proof fn filter_assembles(
    id: u32,
    input: WirePlanView,
    predicate: WireExprView,
    schema: Option<WireSchemaView>,
    body: Seq<RawView>,
    depth: nat,
)
    requires
        depth > 0,
        number(with_tag(body, 1)) == Some(id as u64),
        input_of(with_tag(body, 2), depth) == Some(input),
        operand_of(with_tag(body, 3), depth) == Some(predicate),
        optional_schema(with_tag(body, 4), depth) == Some(schema),
    ensures
        filter_body(body, depth)
            == Some(WirePlanView::Filter { id, input: Box::new(input), predicate, schema }),
{
    broadcast use code_inverts_unsigned;

}

proof fn filter_operator_reads_back(plan: WirePlanView, depth: nat)
    requires
        plan is Filter,
        plan_fits(plan, depth + 1),
        message_bytes(operator_fields(plan)).len() <= u64::MAX,
    ensures
        filter_body(operator_fields(plan), depth) == Some(plan),
    decreases plan, 0int, 0int,
{
    let body = operator_fields(plan);
    if let WirePlanView::Filter { id, input, predicate, schema } = plan {
        filter_slots(id, *input, predicate, schema, body);
        number_slot_reads_back(1, id as u64);
        input_reads_back(2, *input, depth);
        operand_reads_back(3, predicate, depth);
        schema_slot_reads_back(4, schema, depth);
        filter_assembles(id, *input, predicate, schema, body, depth);
    }
}

/// The parts of a message stand apart.
proof fn hash_aggregate_slots(
    id: u32,
    input: WirePlanView,
    group_exprs: Seq<WireExprView>,
    aggregate_exprs: Seq<WireExprView>,
    schema: Option<WireSchemaView>,
    body: Seq<RawView>,
)
    requires
        body == number_slot(1, id as u64) + input_slot(2, input) + exprs_slot(3, group_exprs)
            + exprs_slot(4, aggregate_exprs) + schema_slot(5, schema),
    ensures
        with_tag(body, 1) == number_slot(1, id as u64),
        message_bytes(number_slot(1, id as u64)).len() <= message_bytes(body).len(),
        with_tag(body, 2) == input_slot(2, input),
        message_bytes(input_slot(2, input)).len() <= message_bytes(body).len(),
        with_tag(body, 3) == exprs_slot(3, group_exprs),
        message_bytes(exprs_slot(3, group_exprs)).len() <= message_bytes(body).len(),
        with_tag(body, 4) == exprs_slot(4, aggregate_exprs),
        message_bytes(exprs_slot(4, aggregate_exprs)).len() <= message_bytes(body).len(),
        with_tag(body, 5) == schema_slot(5, schema),
        message_bytes(schema_slot(5, schema)).len() <= message_bytes(body).len(),
{
    let none = Seq::<RawView>::empty();
    plus_nothing(body);
    slots_stand_apart(
        number_slot(1, id as u64),
        input_slot(2, input),
        exprs_slot(3, group_exprs),
        exprs_slot(4, aggregate_exprs),
        schema_slot(5, schema),
        none,
        none,
        body,
    );
}

/// Parts that read well make a message that does.
proof fn hash_aggregate_assembles(
    id: u32,
    input: WirePlanView,
    group_exprs: Seq<WireExprView>,
    aggregate_exprs: Seq<WireExprView>,
    schema: Option<WireSchemaView>,
    body: Seq<RawView>,
    depth: nat,
)
    requires
        depth > 0,
        number(with_tag(body, 1)) == Some(id as u64),
        input_of(with_tag(body, 2), depth) == Some(input),
        exprs_of(with_tag(body, 3), depth) == Some(group_exprs),
        exprs_of(with_tag(body, 4), depth) == Some(aggregate_exprs),
        optional_schema(with_tag(body, 5), depth) == Some(schema),
    ensures
        hash_aggregate_body(body, depth)
            == Some(WirePlanView::HashAggregate { id, input: Box::new(input), group_exprs, aggregate_exprs, schema }),
{
    broadcast use code_inverts_unsigned;

}

proof fn hash_aggregate_operator_reads_back(plan: WirePlanView, depth: nat)
    requires
        plan is HashAggregate,
        plan_fits(plan, depth + 1),
        message_bytes(operator_fields(plan)).len() <= u64::MAX,
    ensures
        hash_aggregate_body(operator_fields(plan), depth) == Some(plan),
    decreases plan, 0int, 0int,
{
    let body = operator_fields(plan);
    if let WirePlanView::HashAggregate { id, input, group_exprs, aggregate_exprs, schema } = plan {
        hash_aggregate_slots(id, *input, group_exprs, aggregate_exprs, schema, body);
        number_slot_reads_back(1, id as u64);
        input_reads_back(2, *input, depth);
        exprs_read_back(3, group_exprs, depth);
        exprs_read_back(4, aggregate_exprs, depth);
        schema_slot_reads_back(5, schema, depth);
        hash_aggregate_assembles(id, *input, group_exprs, aggregate_exprs, schema, body, depth);
    }
}

/// The parts of a message stand apart.
proof fn sort_slots(
    id: u32,
    input: WirePlanView,
    exprs: Seq<WireSortView>,
    schema: Option<WireSchemaView>,
    body: Seq<RawView>,
)
    requires
        body == number_slot(1, id as u64) + input_slot(2, input) + sorts_slot(3, exprs)
            + schema_slot(4, schema),
    ensures
        with_tag(body, 1) == number_slot(1, id as u64),
        message_bytes(number_slot(1, id as u64)).len() <= message_bytes(body).len(),
        with_tag(body, 2) == input_slot(2, input),
        message_bytes(input_slot(2, input)).len() <= message_bytes(body).len(),
        with_tag(body, 3) == sorts_slot(3, exprs),
        message_bytes(sorts_slot(3, exprs)).len() <= message_bytes(body).len(),
        with_tag(body, 4) == schema_slot(4, schema),
        message_bytes(schema_slot(4, schema)).len() <= message_bytes(body).len(),
{
    let none = Seq::<RawView>::empty();
    plus_nothing(body);
    slots_stand_apart(
        number_slot(1, id as u64),
        input_slot(2, input),
        sorts_slot(3, exprs),
        schema_slot(4, schema),
        none,
        none,
        none,
        body,
    );
}

/// Parts that read well make a message that does.
proof fn sort_assembles(
    id: u32,
    input: WirePlanView,
    exprs: Seq<WireSortView>,
    schema: Option<WireSchemaView>,
    body: Seq<RawView>,
    depth: nat,
)
    requires
        depth > 0,
        number(with_tag(body, 1)) == Some(id as u64),
        input_of(with_tag(body, 2), depth) == Some(input),
        sorts_of(with_tag(body, 3), depth) == Some(exprs),
        optional_schema(with_tag(body, 4), depth) == Some(schema),
    ensures
        sort_body(body, depth)
            == Some(WirePlanView::Sort { id, input: Box::new(input), exprs, schema }),
{
    broadcast use code_inverts_unsigned;

}

proof fn sort_operator_reads_back(plan: WirePlanView, depth: nat)
    requires
        plan is Sort,
        plan_fits(plan, depth + 1),
        message_bytes(operator_fields(plan)).len() <= u64::MAX,
    ensures
        sort_body(operator_fields(plan), depth) == Some(plan),
    decreases plan, 0int, 0int,
{
    let body = operator_fields(plan);
    if let WirePlanView::Sort { id, input, exprs, schema } = plan {
        sort_slots(id, *input, exprs, schema, body);
        number_slot_reads_back(1, id as u64);
        input_reads_back(2, *input, depth);
        sorts_read_back(3, exprs, depth);
        schema_slot_reads_back(4, schema, depth);
        sort_assembles(id, *input, exprs, schema, body, depth);
    }
}

/// The parts of a message stand apart.
proof fn top_k_slots(
    id: u32,
    input: WirePlanView,
    exprs: Seq<WireSortView>,
    limit: u64,
    schema: Option<WireSchemaView>,
    body: Seq<RawView>,
)
    requires
        body == number_slot(1, id as u64) + input_slot(2, input) + sorts_slot(3, exprs)
            + number_slot(4, limit) + schema_slot(5, schema),
    ensures
        with_tag(body, 1) == number_slot(1, id as u64),
        message_bytes(number_slot(1, id as u64)).len() <= message_bytes(body).len(),
        with_tag(body, 2) == input_slot(2, input),
        message_bytes(input_slot(2, input)).len() <= message_bytes(body).len(),
        with_tag(body, 3) == sorts_slot(3, exprs),
        message_bytes(sorts_slot(3, exprs)).len() <= message_bytes(body).len(),
        with_tag(body, 4) == number_slot(4, limit),
        message_bytes(number_slot(4, limit)).len() <= message_bytes(body).len(),
        with_tag(body, 5) == schema_slot(5, schema),
        message_bytes(schema_slot(5, schema)).len() <= message_bytes(body).len(),
{
    let none = Seq::<RawView>::empty();
    plus_nothing(body);
    slots_stand_apart(
        number_slot(1, id as u64),
        input_slot(2, input),
        sorts_slot(3, exprs),
        number_slot(4, limit),
        schema_slot(5, schema),
        none,
        none,
        body,
    );
}

/// Parts that read well make a message that does.
proof fn top_k_assembles(
    id: u32,
    input: WirePlanView,
    exprs: Seq<WireSortView>,
    limit: u64,
    schema: Option<WireSchemaView>,
    body: Seq<RawView>,
    depth: nat,
)
    requires
        depth > 0,
        number(with_tag(body, 1)) == Some(id as u64),
        input_of(with_tag(body, 2), depth) == Some(input),
        sorts_of(with_tag(body, 3), depth) == Some(exprs),
        number(with_tag(body, 4)) == Some(limit),
        optional_schema(with_tag(body, 5), depth) == Some(schema),
    ensures
        top_k_body(body, depth)
            == Some(WirePlanView::TopK { id, input: Box::new(input), exprs, limit, schema }),
{
    broadcast use code_inverts_unsigned;

}

proof fn top_k_operator_reads_back(plan: WirePlanView, depth: nat)
    requires
        plan is TopK,
        plan_fits(plan, depth + 1),
        message_bytes(operator_fields(plan)).len() <= u64::MAX,
    ensures
        top_k_body(operator_fields(plan), depth) == Some(plan),
    decreases plan, 0int, 0int,
{
    let body = operator_fields(plan);
    if let WirePlanView::TopK { id, input, exprs, limit, schema } = plan {
        top_k_slots(id, *input, exprs, limit, schema, body);
        number_slot_reads_back(1, id as u64);
        input_reads_back(2, *input, depth);
        sorts_read_back(3, exprs, depth);
        number_slot_reads_back(4, limit);
        schema_slot_reads_back(5, schema, depth);
        top_k_assembles(id, *input, exprs, limit, schema, body, depth);
    }
}

/// The parts of a message stand apart.
proof fn limit_slots(
    id: u32,
    input: WirePlanView,
    limit: u64,
    schema: Option<WireSchemaView>,
    body: Seq<RawView>,
)
    requires
        body == number_slot(1, id as u64) + input_slot(2, input) + number_slot(3, limit)
            + schema_slot(4, schema),
    ensures
        with_tag(body, 1) == number_slot(1, id as u64),
        message_bytes(number_slot(1, id as u64)).len() <= message_bytes(body).len(),
        with_tag(body, 2) == input_slot(2, input),
        message_bytes(input_slot(2, input)).len() <= message_bytes(body).len(),
        with_tag(body, 3) == number_slot(3, limit),
        message_bytes(number_slot(3, limit)).len() <= message_bytes(body).len(),
        with_tag(body, 4) == schema_slot(4, schema),
        message_bytes(schema_slot(4, schema)).len() <= message_bytes(body).len(),
{
    let none = Seq::<RawView>::empty();
    plus_nothing(body);
    slots_stand_apart(
        number_slot(1, id as u64),
        input_slot(2, input),
        number_slot(3, limit),
        schema_slot(4, schema),
        none,
        none,
        none,
        body,
    );
}

/// Parts that read well make a message that does.
proof fn limit_assembles(
    id: u32,
    input: WirePlanView,
    limit: u64,
    schema: Option<WireSchemaView>,
    body: Seq<RawView>,
    depth: nat,
)
    requires
        depth > 0,
        number(with_tag(body, 1)) == Some(id as u64),
        input_of(with_tag(body, 2), depth) == Some(input),
        number(with_tag(body, 3)) == Some(limit),
        optional_schema(with_tag(body, 4), depth) == Some(schema),
    ensures
        limit_body(body, depth)
            == Some(WirePlanView::Limit { id, input: Box::new(input), limit, schema }),
{
    broadcast use code_inverts_unsigned;

}

proof fn limit_operator_reads_back(plan: WirePlanView, depth: nat)
    requires
        plan is Limit,
        plan_fits(plan, depth + 1),
        message_bytes(operator_fields(plan)).len() <= u64::MAX,
    ensures
        limit_body(operator_fields(plan), depth) == Some(plan),
    decreases plan, 0int, 0int,
{
    let body = operator_fields(plan);
    if let WirePlanView::Limit { id, input, limit, schema } = plan {
        limit_slots(id, *input, limit, schema, body);
        number_slot_reads_back(1, id as u64);
        input_reads_back(2, *input, depth);
        number_slot_reads_back(3, limit);
        schema_slot_reads_back(4, schema, depth);
        limit_assembles(id, *input, limit, schema, body, depth);
    }
}

/// The parts of a message stand apart.
proof fn hash_join_slots(
    id: u32,
    left: WirePlanView,
    right: WirePlanView,
    join_type: i32,
    left_on: Seq<WireExprView>,
    right_on: Seq<WireExprView>,
    schema: Option<WireSchemaView>,
    body: Seq<RawView>,
)
    requires
        body == number_slot(1, id as u64) + input_slot(2, left) + input_slot(3, right)
            + number_slot(4, unsigned(join_type as i64)) + exprs_slot(5, left_on)
            + exprs_slot(6, right_on) + schema_slot(7, schema),
    ensures
        with_tag(body, 1) == number_slot(1, id as u64),
        message_bytes(number_slot(1, id as u64)).len() <= message_bytes(body).len(),
        with_tag(body, 2) == input_slot(2, left),
        message_bytes(input_slot(2, left)).len() <= message_bytes(body).len(),
        with_tag(body, 3) == input_slot(3, right),
        message_bytes(input_slot(3, right)).len() <= message_bytes(body).len(),
        with_tag(body, 4) == number_slot(4, unsigned(join_type as i64)),
        message_bytes(number_slot(4, unsigned(join_type as i64))).len() <= message_bytes(body).len(),
        with_tag(body, 5) == exprs_slot(5, left_on),
        message_bytes(exprs_slot(5, left_on)).len() <= message_bytes(body).len(),
        with_tag(body, 6) == exprs_slot(6, right_on),
        message_bytes(exprs_slot(6, right_on)).len() <= message_bytes(body).len(),
        with_tag(body, 7) == schema_slot(7, schema),
        message_bytes(schema_slot(7, schema)).len() <= message_bytes(body).len(),
{
    let none = Seq::<RawView>::empty();
    plus_nothing(body);
    slots_stand_apart(
        number_slot(1, id as u64),
        input_slot(2, left),
        input_slot(3, right),
        number_slot(4, unsigned(join_type as i64)),
        exprs_slot(5, left_on),
        exprs_slot(6, right_on),
        schema_slot(7, schema),
        body,
    );
}

/// Parts that read well make a message that does.
proof fn hash_join_assembles(
    id: u32,
    left: WirePlanView,
    right: WirePlanView,
    join_type: i32,
    left_on: Seq<WireExprView>,
    right_on: Seq<WireExprView>,
    schema: Option<WireSchemaView>,
    body: Seq<RawView>,
    depth: nat,
)
    requires
        depth > 0,
        number(with_tag(body, 1)) == Some(id as u64),
        input_of(with_tag(body, 2), depth) == Some(left),
        input_of(with_tag(body, 3), depth) == Some(right),
        number(with_tag(body, 4)) == Some(unsigned(join_type as i64)),
        exprs_of(with_tag(body, 5), depth) == Some(left_on),
        exprs_of(with_tag(body, 6), depth) == Some(right_on),
        optional_schema(with_tag(body, 7), depth) == Some(schema),
    ensures
        hash_join_body(body, depth)
            == Some(WirePlanView::HashJoin { id, left: Box::new(left), right: Box::new(right), join_type, left_on, right_on, schema }),
{
    broadcast use code_inverts_unsigned;

}

proof fn hash_join_operator_reads_back(plan: WirePlanView, depth: nat)
    requires
        plan is HashJoin,
        plan_fits(plan, depth + 1),
        message_bytes(operator_fields(plan)).len() <= u64::MAX,
    ensures
        hash_join_body(operator_fields(plan), depth) == Some(plan),
    decreases plan, 0int, 0int,
{
    let body = operator_fields(plan);
    if let WirePlanView::HashJoin { id, left, right, join_type, left_on, right_on, schema } = plan {
        hash_join_slots(id, *left, *right, join_type, left_on, right_on, schema, body);
        number_slot_reads_back(1, id as u64);
        input_reads_back(2, *left, depth);
        input_reads_back(3, *right, depth);
        number_slot_reads_back(4, unsigned(join_type as i64));
        exprs_read_back(5, left_on, depth);
        exprs_read_back(6, right_on, depth);
        schema_slot_reads_back(7, schema, depth);
        hash_join_assembles(id, *left, *right, join_type, left_on, right_on, schema, body, depth);
    }
}

/// What stands within the message of a plan reads back.
proof fn operator_reads_back(plan: WirePlanView, depth: nat)
    requires
        1 <= plan_tag(plan) <= 8,
        plan_fits(plan, depth + 1),
        message_bytes(operator_fields(plan)).len() <= u64::MAX,
    ensures
        plan_body(operator_fields(plan), plan_tag(plan), depth) == Some(plan),
    decreases plan, 0int, 1int,
{
    match plan {
        WirePlanView::Scan { .. } => scan_operator_reads_back(plan, depth),
        WirePlanView::Projection { .. } => projection_operator_reads_back(plan, depth),
        WirePlanView::Filter { .. } => filter_operator_reads_back(plan, depth),
        WirePlanView::HashAggregate { .. } => hash_aggregate_operator_reads_back(plan, depth),
        WirePlanView::Sort { .. } => sort_operator_reads_back(plan, depth),
        WirePlanView::TopK { .. } => top_k_operator_reads_back(plan, depth),
        WirePlanView::Limit { .. } => limit_operator_reads_back(plan, depth),
        WirePlanView::HashJoin { .. } => hash_join_operator_reads_back(plan, depth),
        _ => {},
    }
}


proof fn plan_runs_stay_bad(fields: Seq<RawView>, low: int, high: int, depth: nat)
    requires
        low <= high,
        plan_runs(fields, low, depth) is None,
    ensures
        plan_runs(fields, high, depth) is None,
    decreases high - low,
{
    if low < high {
        plan_runs_stay_bad(fields, low, high - 1, depth);
    }
}

/// A plan that was read, as contracts see it.
pub open spec fn read_plan_outcome(r: Option<WirePlan>) -> Option<WirePlanView> {
    match r {
        Some(plan) => Some(plan@),
        None => None,
    }
}

pub(crate) fn read_input(fields: &Vec<RawField>, tag: u32, depth: u32) -> (r: Option<WirePlan>)
    ensures
        read_plan_outcome(r) == input_of(with_tag(raw_views(fields@), tag), depth as nat),
    decreases depth, 3int, 0int,
{
    let to: usize = fields.len();
    proof {
        reveal(plan_of);
        assert(raw_views(fields@).subrange(0, to as int) =~= raw_views(fields@));
    }
    if !occurs_in(fields, 0, to, tag) {
        return Some(WirePlan::Absent);
    }
    if depth == 0 {
        return None;
    }
    match merged_in(fields, 0, to, tag, depth) {
        None => None,
        Some(inner) => read_plan(&inner, depth - 1),
    }
}

/// The plan that a message holds.
pub fn read_plan(fields: &Vec<RawField>, depth: u32) -> (r: Option<WirePlan>)
    ensures
        read_plan_outcome(r) == plan_of(raw_views(fields@), depth as nat),
    decreases depth, 2int, 0int,
{
    proof {
        reveal(plan_of);
    }
    let ghost views = raw_views(fields@);
    if !all_passable(fields, 1, 8, depth) {
        return None;
    }
    let mut run: Option<(usize, u32)> = None;
    for i in 0..fields.len()
        invariant
            views == raw_views(fields@),
            passable(views, 1, 8, depth as nat),
            match run {
                Some((from, tag)) => {
                    &&& from < i
                    &&& 1 <= tag <= 8
                    &&& plan_runs(views, i as int, depth as nat) == Some(
                        Some((from as int, tag)),
                    )
                },
                None => plan_runs(views, i as int, depth as nat) == Some(None::<(int, u32)>),
            },
    {
        proof {
            reveal(plan_of);
            assert(views[i as int].tag == fields@[i as int].tag);
            if plan_runs(views, i + 1, depth as nat) is None {
                plan_runs_stay_bad(views, i + 1, fields.len() as int, depth as nat);
            }
        }
        let tag: u32 = fields[i].tag;
        if 1 <= tag && tag <= 8 {
            match run {
                Some((from, current)) => {
                    if current != tag {
                        if read_plan_kind(fields, from, i, current, depth).is_none() {
                            return None;
                        }
                        run = Some((i, tag));
                    }
                },
                None => {
                    run = Some((i, tag));
                },
            }
        }
    }
    match run {
        None => Some(WirePlan::Empty),
        Some((from, tag)) => read_plan_kind(fields, from, fields.len(), tag, depth),
    }
}

fn read_plan_kind(fields: &Vec<RawField>, from: usize, to: usize, tag: u32, depth: u32) -> (r:
    Option<WirePlan>)
    requires
        from <= to <= fields.len(),
        1 <= tag <= 8,
    ensures
        read_plan_outcome(r) == plan_kind(
            raw_views(fields@).subrange(from as int, to as int),
            tag,
            depth as nat,
        ),
    decreases depth, 0int, 1int,
{
    if depth == 0 {
        return None;
    }
    match merged_in(fields, from, to, tag, depth) {
        Some(body) => read_plan_body(&body, tag, depth - 1),
        None => None,
    }
}


fn read_scan_body(body: &Vec<RawField>, depth: u32) -> (r: Option<WirePlan>)
    ensures
        read_plan_outcome(r) == scan_body(raw_views(body@), depth as nat),
    decreases depth, 4int, 0int,
{
    let end: usize = body.len();
    proof {
        assert(raw_views(body@).subrange(0, end as int) =~= raw_views(body@));
    }
    if !all_passable(body, 1, 6, depth) {
        return None;
    }
    match (
        number_in(body, 0, end, 1),
        text_in(body, 0, end, 2),
        number_in(body, 0, end, 3),
        numbers_in(body, 4),
        read_exprs(body, 5, depth),
        read_optional_schema(body, 6, depth),
    ) {
        (Some(id), Some(table_name), Some(has_projection), Some(projection), Some(filters), Some(schema)) => Some(
            WirePlan::Scan {
                id: (id % 0x1_0000_0000) as u32,
                table_name,
                has_projection: has_projection != 0,
                projection,
                filters,
                schema,
            },
        ),
        _ => None,
    }
}

fn read_projection_body(body: &Vec<RawField>, depth: u32) -> (r: Option<WirePlan>)
    ensures
        read_plan_outcome(r) == projection_body(raw_views(body@), depth as nat),
    decreases depth, 4int, 0int,
{
    let end: usize = body.len();
    proof {
        assert(raw_views(body@).subrange(0, end as int) =~= raw_views(body@));
    }
    if !all_passable(body, 1, 4, depth) {
        return None;
    }
    match (
        number_in(body, 0, end, 1),
        read_input(body, 2, depth),
        read_exprs(body, 3, depth),
        read_optional_schema(body, 4, depth),
    ) {
        (Some(id), Some(input), Some(exprs), Some(schema)) => Some(
            WirePlan::Projection {
                id: (id % 0x1_0000_0000) as u32,
                input: Box::new(input),
                exprs,
                schema,
            },
        ),
        _ => None,
    }
}

fn read_filter_body(body: &Vec<RawField>, depth: u32) -> (r: Option<WirePlan>)
    ensures
        read_plan_outcome(r) == filter_body(raw_views(body@), depth as nat),
    decreases depth, 4int, 0int,
{
    let end: usize = body.len();
    proof {
        assert(raw_views(body@).subrange(0, end as int) =~= raw_views(body@));
    }
    if !all_passable(body, 1, 4, depth) {
        return None;
    }
    match (
        number_in(body, 0, end, 1),
        read_input(body, 2, depth),
        read_operand(body, 3, depth),
        read_optional_schema(body, 4, depth),
    ) {
        (Some(id), Some(input), Some(predicate), Some(schema)) => Some(
            WirePlan::Filter {
                id: (id % 0x1_0000_0000) as u32,
                input: Box::new(input),
                predicate,
                schema,
            },
        ),
        _ => None,
    }
}

fn read_hash_aggregate_body(body: &Vec<RawField>, depth: u32) -> (r: Option<WirePlan>)
    ensures
        read_plan_outcome(r) == hash_aggregate_body(raw_views(body@), depth as nat),
    decreases depth, 4int, 0int,
{
    let end: usize = body.len();
    proof {
        assert(raw_views(body@).subrange(0, end as int) =~= raw_views(body@));
    }
    if !all_passable(body, 1, 5, depth) {
        return None;
    }
    match (
        number_in(body, 0, end, 1),
        read_input(body, 2, depth),
        read_exprs(body, 3, depth),
        read_exprs(body, 4, depth),
        read_optional_schema(body, 5, depth),
    ) {
        (Some(id), Some(input), Some(group_exprs), Some(aggregate_exprs), Some(schema)) => Some(
            WirePlan::HashAggregate {
                id: (id % 0x1_0000_0000) as u32,
                input: Box::new(input),
                group_exprs,
                aggregate_exprs,
                schema,
            },
        ),
        _ => None,
    }
}

fn read_sort_body(body: &Vec<RawField>, depth: u32) -> (r: Option<WirePlan>)
    ensures
        read_plan_outcome(r) == sort_body(raw_views(body@), depth as nat),
    decreases depth, 4int, 0int,
{
    let end: usize = body.len();
    proof {
        assert(raw_views(body@).subrange(0, end as int) =~= raw_views(body@));
    }
    if !all_passable(body, 1, 4, depth) {
        return None;
    }
    match (
        number_in(body, 0, end, 1),
        read_input(body, 2, depth),
        read_sorts(body, 3, depth),
        read_optional_schema(body, 4, depth),
    ) {
        (Some(id), Some(input), Some(exprs), Some(schema)) => Some(
            WirePlan::Sort {
                id: (id % 0x1_0000_0000) as u32,
                input: Box::new(input),
                exprs,
                schema,
            },
        ),
        _ => None,
    }
}

fn read_top_k_body(body: &Vec<RawField>, depth: u32) -> (r: Option<WirePlan>)
    ensures
        read_plan_outcome(r) == top_k_body(raw_views(body@), depth as nat),
    decreases depth, 4int, 0int,
{
    let end: usize = body.len();
    proof {
        assert(raw_views(body@).subrange(0, end as int) =~= raw_views(body@));
    }
    if !all_passable(body, 1, 5, depth) {
        return None;
    }
    match (
        number_in(body, 0, end, 1),
        read_input(body, 2, depth),
        read_sorts(body, 3, depth),
        number_in(body, 0, end, 4),
        read_optional_schema(body, 5, depth),
    ) {
        (Some(id), Some(input), Some(exprs), Some(limit), Some(schema)) => Some(
            WirePlan::TopK {
                id: (id % 0x1_0000_0000) as u32,
                input: Box::new(input),
                exprs,
                limit,
                schema,
            },
        ),
        _ => None,
    }
}

fn read_limit_body(body: &Vec<RawField>, depth: u32) -> (r: Option<WirePlan>)
    ensures
        read_plan_outcome(r) == limit_body(raw_views(body@), depth as nat),
    decreases depth, 4int, 0int,
{
    let end: usize = body.len();
    proof {
        assert(raw_views(body@).subrange(0, end as int) =~= raw_views(body@));
    }
    if !all_passable(body, 1, 4, depth) {
        return None;
    }
    match (
        number_in(body, 0, end, 1),
        read_input(body, 2, depth),
        number_in(body, 0, end, 3),
        read_optional_schema(body, 4, depth),
    ) {
        (Some(id), Some(input), Some(limit), Some(schema)) => Some(
            WirePlan::Limit {
                id: (id % 0x1_0000_0000) as u32,
                input: Box::new(input),
                limit,
                schema,
            },
        ),
        _ => None,
    }
}

fn read_hash_join_body(body: &Vec<RawField>, depth: u32) -> (r: Option<WirePlan>)
    ensures
        read_plan_outcome(r) == hash_join_body(raw_views(body@), depth as nat),
    decreases depth, 4int, 0int,
{
    let end: usize = body.len();
    proof {
        assert(raw_views(body@).subrange(0, end as int) =~= raw_views(body@));
    }
    if !all_passable(body, 1, 7, depth) {
        return None;
    }
    match (
        number_in(body, 0, end, 1),
        read_input(body, 2, depth),
        read_input(body, 3, depth),
        number_in(body, 0, end, 4),
        read_exprs(body, 5, depth),
        read_exprs(body, 6, depth),
        read_optional_schema(body, 7, depth),
    ) {
        (Some(id), Some(left), Some(right), Some(join_type), Some(left_on), Some(right_on), Some(schema)) => Some(
            WirePlan::HashJoin {
                id: (id % 0x1_0000_0000) as u32,
                left: Box::new(left),
                right: Box::new(right),
                join_type: to_code(join_type),
                left_on,
                right_on,
                schema,
            },
        ),
        _ => None,
    }
}

fn read_plan_body(body: &Vec<RawField>, tag: u32, depth: u32) -> (r: Option<WirePlan>)
    requires
        1 <= tag <= 8,
    ensures
        read_plan_outcome(r) == plan_body(raw_views(body@), tag, depth as nat),
    decreases depth, 5int, 0int,
{
    if tag == 1 {
        read_scan_body(body, depth)
    } else if tag == 2 {
        read_projection_body(body, depth)
    } else if tag == 3 {
        read_filter_body(body, depth)
    } else if tag == 4 {
        read_hash_aggregate_body(body, depth)
    } else if tag == 5 {
        read_sort_body(body, depth)
    } else if tag == 6 {
        read_top_k_body(body, depth)
    } else if tag == 7 {
        read_limit_body(body, depth)
    } else {
        read_hash_join_body(body, depth)
    }
}

pub(crate) fn push_input(fields: &mut Vec<RawField>, tag: u32, plan: &WirePlan)
    ensures
        raw_views(final(fields)@) == raw_views(old(fields)@) + input_slot(tag, plan@),
    decreases plan, 1int,
{
    let ghost earlier = raw_views(fields@);
    match plan {
        WirePlan::Absent => {},
        _ => {
            let inner = write_plan(plan);
            push_message(fields, tag, &inner);
        },
    }
    proof {
        assert(raw_views(fields@) =~= earlier + input_slot(tag, plan@));
    }
}

/// The message of a plan.
pub fn write_plan(plan: &WirePlan) -> (r: Vec<RawField>)
    ensures
        raw_views(r@) == plan_fields(plan@),
        all_sound(raw_views(r@)),
    decreases plan, 0int,
{
    proof {
        plan_fields_are_sound(plan@);
    }
    let mut fields: Vec<RawField> = Vec::new();
    let mut body: Vec<RawField> = Vec::new();
    let mut tag: u32 = 0;
    proof {
        assert(raw_views(fields@) =~= Seq::empty());
        assert(raw_views(body@) =~= Seq::empty());
    }
    match plan {
        WirePlan::Absent | WirePlan::Empty => {
            return fields;
        },
        WirePlan::Scan { id, table_name, has_projection, projection, filters, schema } => {
            tag = 1;
            push_number(&mut body, 1, *id as u64);
            push_text_slot(&mut body, 2, table_name.as_str());
            push_flag(&mut body, 3, *has_projection);
            push_numbers(&mut body, 4, projection);
            push_exprs(&mut body, 5, filters);
            push_schema(&mut body, 6, schema);
        },
        WirePlan::Projection { id, input, exprs, schema } => {
            tag = 2;
            push_number(&mut body, 1, *id as u64);
            push_input(&mut body, 2, input);
            push_exprs(&mut body, 3, exprs);
            push_schema(&mut body, 4, schema);
        },
        WirePlan::Filter { id, input, predicate, schema } => {
            tag = 3;
            push_number(&mut body, 1, *id as u64);
            push_input(&mut body, 2, input);
            push_operand(&mut body, 3, predicate);
            push_schema(&mut body, 4, schema);
        },
        WirePlan::HashAggregate { id, input, group_exprs, aggregate_exprs, schema } => {
            tag = 4;
            push_number(&mut body, 1, *id as u64);
            push_input(&mut body, 2, input);
            push_exprs(&mut body, 3, group_exprs);
            push_exprs(&mut body, 4, aggregate_exprs);
            push_schema(&mut body, 5, schema);
        },
        WirePlan::Sort { id, input, exprs, schema } => {
            tag = 5;
            push_number(&mut body, 1, *id as u64);
            push_input(&mut body, 2, input);
            push_sorts(&mut body, 3, exprs);
            push_schema(&mut body, 4, schema);
        },
        WirePlan::TopK { id, input, exprs, limit, schema } => {
            tag = 6;
            push_number(&mut body, 1, *id as u64);
            push_input(&mut body, 2, input);
            push_sorts(&mut body, 3, exprs);
            push_number(&mut body, 4, *limit);
            push_schema(&mut body, 5, schema);
        },
        WirePlan::Limit { id, input, limit, schema } => {
            tag = 7;
            push_number(&mut body, 1, *id as u64);
            push_input(&mut body, 2, input);
            push_number(&mut body, 3, *limit);
            push_schema(&mut body, 4, schema);
        },
        WirePlan::HashJoin { id, left, right, join_type, left_on, right_on, schema } => {
            tag = 8;
            push_number(&mut body, 1, *id as u64);
            push_input(&mut body, 2, left);
            push_input(&mut body, 3, right);
            push_number(&mut body, 4, to_unsigned(*join_type as i64));
            push_exprs(&mut body, 5, left_on);
            push_exprs(&mut body, 6, right_on);
            push_schema(&mut body, 7, schema);
        },
    }
    proof {
        assert(raw_views(body@) =~= operator_fields(plan@));
    }
    push_message(&mut fields, tag, &body);
    proof {
        assert(raw_views(fields@) =~= plan_fields(plan@));
    }
    fields
}

} // verus!

//! Expressions as messages.

use crate::wire::fields::{
    all_sound, message_bytes, payload_is_shorter, raw_views, short_is_writable, FieldValue,
    RawField, RawView, ValueView,
};
use crate::wire::schema::{
    code, code_inverts_unsigned, read_value, to_code, to_unsigned, unsigned, value_fields, value_of,
    value_reads_back, write_value, WireValue, WireValueView,
};
use crate::wire::slots::{
    all_passable, flag_slot, merged, merged_in, message_field, message_field_reads_back, number,
    number_in, number_slot, number_slot_reads_back, occurs_in, passable, plus_nothing, push_flag,
    push_message, push_number, push_text, push_text_slot, text, slots_stand_apart, text_field,
    text_field_reads_back, text_in, text_slot, text_slot_reads_back, with_tag, with_tag_of_tagged,
};
use vstd::prelude::*;

verus! {

/// An expression of a message. An operand that is not there is `Absent`, a message that says
/// nothing of its kind `Empty`.
#[allow(inconsistent_fields)]
pub enum WireExpr {
    Absent,
    Empty,
    Column(String),
    Literal(WireValue),
    Binary { left: Box<WireExpr>, operator: i32, right: Box<WireExpr> },
    IsNull { expr: Box<WireExpr>, negated: bool },
    Cast { expr: Box<WireExpr>, data_type: i32 },
    Alias { expr: Box<WireExpr>, alias: String },
    Aggregate { function: i32, expr: Box<WireExpr>, distinct: bool },
    Wildcard(bool),
}

#[allow(inconsistent_fields)]
pub enum WireExprView {
    Absent,
    Empty,
    Column(Seq<char>),
    Literal(WireValueView),
    Binary { left: Box<WireExprView>, operator: i32, right: Box<WireExprView> },
    IsNull { expr: Box<WireExprView>, negated: bool },
    Cast { expr: Box<WireExprView>, data_type: i32 },
    Alias { expr: Box<WireExprView>, alias: Seq<char> },
    Aggregate { function: i32, expr: Box<WireExprView>, distinct: bool },
    Wildcard(bool),
}

pub open spec fn wire_expr_view(expr: WireExpr) -> WireExprView
    decreases expr,
{
    match expr {
        WireExpr::Absent => WireExprView::Absent,
        WireExpr::Empty => WireExprView::Empty,
        WireExpr::Column(name) => WireExprView::Column(name@),
        WireExpr::Literal(value) => WireExprView::Literal(value@),
        WireExpr::Binary { left, operator, right } => WireExprView::Binary {
            left: Box::new(wire_expr_view(*left)),
            operator,
            right: Box::new(wire_expr_view(*right)),
        },
        WireExpr::IsNull { expr, negated } => WireExprView::IsNull {
            expr: Box::new(wire_expr_view(*expr)),
            negated,
        },
        WireExpr::Cast { expr, data_type } => WireExprView::Cast {
            expr: Box::new(wire_expr_view(*expr)),
            data_type,
        },
        WireExpr::Alias { expr, alias } => WireExprView::Alias {
            expr: Box::new(wire_expr_view(*expr)),
            alias: alias@,
        },
        WireExpr::Aggregate { function, expr, distinct } => WireExprView::Aggregate {
            function,
            expr: Box::new(wire_expr_view(*expr)),
            distinct,
        },
        WireExpr::Wildcard(b) => WireExprView::Wildcard(b),
    }
}

impl View for WireExpr {
    type V = WireExprView;

    open spec fn view(&self) -> WireExprView {
        wire_expr_view(*self)
    }
}

// ---- reading

/// The expression that the occurrences of an operand make together.
pub open spec fn operand_of(occurrences: Seq<RawView>, depth: nat) -> Option<WireExprView>
    decreases depth, 3int, 0int,
{
    if occurrences.len() == 0 {
        Some(WireExprView::Absent)
    } else if depth == 0 {
        None
    } else {
        match merged(occurrences, depth) {
            None => None,
            Some(fields) => expr_of(fields, (depth - 1) as nat),
        }
    }
}

/// The expression that a message holds.
#[verifier::opaque]
pub open spec fn expr_of(fields: Seq<RawView>, depth: nat) -> Option<WireExprView>
    decreases depth, 2int, 0int,
{
    if !passable(fields, 1, 8, depth) {
        None
    } else {
        match expr_runs(fields, fields.len() as int, depth) {
            None => None,
            Some(None) => Some(WireExprView::Empty),
            Some(Some((from, tag))) => expr_kind(
                fields.subrange(from, fields.len() as int),
                tag,
                depth,
            ),
        }
    }
}

/// Where the last run of one kind starts among the first `upto` fields, and its number. Nothing
/// where an earlier run is not sound.
pub open spec fn expr_runs(fields: Seq<RawView>, upto: int, depth: nat) -> Option<
    Option<(int, u32)>,
>
    decreases depth, 1int, upto,
{
    if upto <= 0 {
        Some(None)
    } else {
        let tag = fields[upto - 1].tag;
        match expr_runs(fields, upto - 1, depth) {
            None => None,
            Some(run) => if !(1 <= tag <= 8) || (run is Some && run->Some_0.1 == tag) {
                Some(run)
            } else if run is Some && expr_kind(
                fields.subrange(run->Some_0.0, upto - 1),
                run->Some_0.1,
                depth,
            ) is None {
                None
            } else {
                Some(Some((upto - 1, tag)))
            },
        }
    }
}

/// The expression that a run of fields of one kind makes.
pub open spec fn expr_kind(run: Seq<RawView>, tag: u32, depth: nat) -> Option<WireExprView>
    decreases depth, 0int, 0int,
{
    let occurrences = with_tag(run, tag);
    if tag == 1 {
        match text(occurrences) {
            Some(name) => Some(WireExprView::Column(name)),
            None => None,
        }
    } else if tag == 8 {
        match number(occurrences) {
            Some(n) => Some(WireExprView::Wildcard(n != 0)),
            None => None,
        }
    } else if depth == 0 {
        None
    } else {
        let inner = (depth - 1) as nat;
        match merged(occurrences, depth) {
            None => None,
            Some(body) => if tag == 2 {
                match value_of(body, inner) {
                    Some(value) => Some(WireExprView::Literal(value)),
                    None => None,
                }
            } else if !passable(body, 1, if tag == 3 || tag == 7 { 3 } else { 2 }, inner) {
                None
            } else if tag == 3 {
                match (
                    operand_of(with_tag(body, 1), inner),
                    number(with_tag(body, 2)),
                    operand_of(with_tag(body, 3), inner),
                ) {
                    (Some(left), Some(operator), Some(right)) => Some(
                        WireExprView::Binary {
                            left: Box::new(left),
                            operator: code(operator),
                            right: Box::new(right),
                        },
                    ),
                    _ => None,
                }
            } else if tag == 4 {
                match (
                    operand_of(with_tag(body, 1), inner),
                    number(with_tag(body, 2)),
                ) {
                    (Some(expr), Some(negated)) => Some(
                        WireExprView::IsNull {
                            expr: Box::new(expr),
                            negated: negated != 0,
                        },
                    ),
                    _ => None,
                }
            } else if tag == 5 {
                match (
                    operand_of(with_tag(body, 1), inner),
                    number(with_tag(body, 2)),
                ) {
                    (Some(expr), Some(data_type)) => Some(
                        WireExprView::Cast {
                            expr: Box::new(expr),
                            data_type: code(data_type),
                        },
                    ),
                    _ => None,
                }
            } else if tag == 6 {
                match (
                    operand_of(with_tag(body, 1), inner),
                    text(with_tag(body, 2)),
                ) {
                    (Some(expr), Some(alias)) => Some(
                        WireExprView::Alias {
                            expr: Box::new(expr),
                            alias,
                        },
                    ),
                    _ => None,
                }
            } else {
                match (
                    number(with_tag(body, 1)),
                    operand_of(with_tag(body, 2), inner),
                    number(with_tag(body, 3)),
                ) {
                    (Some(function), Some(expr), Some(distinct)) => Some(
                        WireExprView::Aggregate {
                            function: code(function),
                            expr: Box::new(expr),
                            distinct: distinct != 0,
                        },
                    ),
                    _ => None,
                }
            },
        }
    }
}

// ---- writing

/// An operand, unless it is absent.
pub open spec fn operand_slot(tag: u32, expr: WireExprView) -> Seq<RawView>
    decreases expr, 1int,
{
    if expr is Absent {
        Seq::empty()
    } else {
        seq![message_field(tag, expr_fields(expr))]
    }
}

/// The message within the message of an expression.
pub open spec fn body_fields(expr: WireExprView) -> Seq<RawView>
    decreases expr, 0int, 0int,
{
    match expr {
        WireExprView::Literal(value) => value_fields(value),
        WireExprView::Binary { left, operator, right } => operand_slot(1, *left)
            + number_slot(2, unsigned(operator as i64)) + operand_slot(3, *right),
        WireExprView::IsNull { expr, negated } => operand_slot(1, *expr) + flag_slot(2, negated),
        WireExprView::Cast { expr, data_type } => operand_slot(1, *expr)
            + number_slot(2, unsigned(data_type as i64)),
        WireExprView::Alias { expr, alias } => operand_slot(1, *expr) + text_slot(2, alias),
        WireExprView::Aggregate { function, expr, distinct } =>
            number_slot(1, unsigned(function as i64)) + operand_slot(2, *expr)
            + flag_slot(3, distinct),
        _ => Seq::empty(),
    }
}

/// The number of an expression's kind.
pub open spec fn kind_tag(expr: WireExprView) -> u32 {
    match expr {
        WireExprView::Absent | WireExprView::Empty => 0,
        WireExprView::Column(_) => 1,
        WireExprView::Literal(_) => 2,
        WireExprView::Binary { .. } => 3,
        WireExprView::IsNull { .. } => 4,
        WireExprView::Cast { .. } => 5,
        WireExprView::Alias { .. } => 6,
        WireExprView::Aggregate { .. } => 7,
        WireExprView::Wildcard(_) => 8,
    }
}

/// The message of an expression.
pub open spec fn expr_fields(expr: WireExprView) -> Seq<RawView>
    decreases expr, 1int, 0int,
{
    match expr {
        WireExprView::Absent | WireExprView::Empty => Seq::empty(),
        WireExprView::Column(name) => seq![text_field(1, name)],
        WireExprView::Wildcard(b) => seq![
            RawView { tag: 8, value: ValueView::Varint(if b { 1 } else { 0 }) },
        ],
        _ => seq![message_field(kind_tag(expr), body_fields(expr))],
    }
}

/// How many messages stand within each other in that of an expression.
pub open spec fn nesting(expr: WireExprView) -> nat
    decreases expr, 0int,
{
    match expr {
        WireExprView::Absent
        | WireExprView::Empty
        | WireExprView::Column(_)
        | WireExprView::Wildcard(_) => 0,
        WireExprView::Literal(_) => 1,
        WireExprView::Binary { left, right, .. } => 1 + if operand_nesting(*left)
            > operand_nesting(*right) {
            operand_nesting(*left)
        } else {
            operand_nesting(*right)
        },
        WireExprView::IsNull { expr, .. } => 1 + operand_nesting(*expr),
        WireExprView::Cast { expr, .. } => 1 + operand_nesting(*expr),
        WireExprView::Alias { expr, .. } => 1 + operand_nesting(*expr),
        WireExprView::Aggregate { expr, .. } => 1 + operand_nesting(*expr),
    }
}

pub open spec fn operand_nesting(expr: WireExprView) -> nat
    decreases expr, 1int,
{
    if expr is Absent {
        0
    } else {
        1 + nesting(expr)
    }
}

/// Messages hold nothing but sound fields.
pub proof fn expr_fields_are_sound(expr: WireExprView)
    ensures
        all_sound(expr_fields(expr)),
        all_sound(body_fields(expr)),
{
    if let WireExprView::Literal(value) = expr {
        value_reads_back(value, 0);
    }
}

/// An operand that was written reads back.
pub proof fn operand_reads_back(tag: u32, expr: WireExprView, depth: nat)
    requires
        operand_nesting(expr) <= depth,
        message_bytes(operand_slot(tag, expr)).len() <= u64::MAX,
    ensures
        operand_of(operand_slot(tag, expr), depth) == Some(expr),
    decreases expr, 1int,
{
    reveal(expr_of);
    if !(expr is Absent) {
        let slot = operand_slot(tag, expr);
        payload_is_shorter(slot, 0);
        expr_fields_are_sound(expr);
        short_is_writable(expr_fields(expr));
        message_field_reads_back(tag, expr_fields(expr), depth);
        expr_reads_back(expr, (depth - 1) as nat);
    }
}

/// An expression that was written reads back.
pub proof fn expr_reads_back(expr: WireExprView, depth: nat)
    requires
        !(expr is Absent),
        nesting(expr) <= depth,
        message_bytes(expr_fields(expr)).len() <= u64::MAX,
    ensures
        expr_of(expr_fields(expr), depth) == Some(expr),
    decreases expr, 0int,
{
    reveal(expr_of);
    let fields = expr_fields(expr);
    if expr is Empty {
        assert(fields =~= Seq::empty());
    } else {
        let tag = kind_tag(expr);
        reveal_with_fuel(expr_runs, 2);
        assert(fields[0].tag == tag);
        assert(expr_runs(fields, 1, depth) == Some(Some((0int, tag))));
        assert(fields.subrange(0, 1) =~= fields);
        with_tag_of_tagged(fields, tag, tag);
        assert(expr_of(fields, depth) == expr_kind(fields, tag, depth));
        kind_reads_back(expr, depth);
    }
}

/// The kind of an expression that was written reads back.
proof fn kind_reads_back(expr: WireExprView, depth: nat)
    requires
        !(expr is Absent),
        !(expr is Empty),
        nesting(expr) <= depth,
        message_bytes(expr_fields(expr)).len() <= u64::MAX,
    ensures
        expr_kind(expr_fields(expr), kind_tag(expr), depth) == Some(expr),
    decreases expr, 0int, 0int,
{
    let fields = expr_fields(expr);
    let tag = kind_tag(expr);
    with_tag_of_tagged(fields, tag, tag);
    if let WireExprView::Column(name) = expr {
        text_field_reads_back(1, name);
    } else if expr is Wildcard {
        reveal_with_fuel(number, 2);
        assert(fields.drop_last() =~= Seq::empty());
    } else {
        let body = body_fields(expr);
        payload_is_shorter(fields, 0);
        expr_fields_are_sound(expr);
        short_is_writable(body);
        message_field_reads_back(tag, body, depth);
        body_reads_back(expr, depth);
    }
}

/// What stands within the message of an expression reads back.
proof fn body_reads_back(expr: WireExprView, depth: nat)
    requires
        expr is Literal || 3 <= kind_tag(expr) <= 7,
        nesting(expr) <= depth,
        message_bytes(body_fields(expr)).len() <= u64::MAX,
        merged(with_tag(expr_fields(expr), kind_tag(expr)), depth) == Some(body_fields(expr)),
    ensures
        expr_kind(expr_fields(expr), kind_tag(expr), depth) == Some(expr),
    decreases expr, 0int, 0int, 0int,
{
    broadcast use {
        number_slot_reads_back,
        text_slot_reads_back,
        code_inverts_unsigned,
    };

    let none = Seq::<RawView>::empty();
    let body = body_fields(expr);
    let inner = (depth - 1) as nat;
    match expr {
        WireExprView::Literal(value) => value_reads_back(value, inner),
        WireExprView::Binary { left, operator, right } => {
            plus_nothing(body);
            slots_stand_apart(
                operand_slot(1, *left),
                number_slot(2, unsigned(operator as i64)),
                operand_slot(3, *right),
                none,
                none,
                none,
                none,
                body,
            );
            operand_reads_back(1, *left, inner);
            operand_reads_back(3, *right, inner);
        },
        WireExprView::IsNull { expr, negated } => {
            plus_nothing(body);
            slots_stand_apart(
                operand_slot(1, *expr),
                flag_slot(2, negated),
                none,
                none,
                none,
                none,
                none,
                body,
            );
            operand_reads_back(1, *expr, inner);
        },
        WireExprView::Cast { expr, data_type } => {
            plus_nothing(body);
            slots_stand_apart(
                operand_slot(1, *expr),
                number_slot(2, unsigned(data_type as i64)),
                none,
                none,
                none,
                none,
                none,
                body,
            );
            operand_reads_back(1, *expr, inner);
        },
        WireExprView::Alias { expr, alias } => {
            plus_nothing(body);
            slots_stand_apart(
                operand_slot(1, *expr),
                text_slot(2, alias),
                none,
                none,
                none,
                none,
                none,
                body,
            );
            operand_reads_back(1, *expr, inner);
        },
        WireExprView::Aggregate { function, expr, distinct } => {
            plus_nothing(body);
            slots_stand_apart(
                number_slot(1, unsigned(function as i64)),
                operand_slot(2, *expr),
                flag_slot(3, distinct),
                none,
                none,
                none,
                none,
                body,
            );
            operand_reads_back(2, *expr, inner);
        },
        _ => {},
    }
}

// ---- doing it

proof fn expr_runs_stay_bad(fields: Seq<RawView>, low: int, high: int, depth: nat)
    requires
        low <= high,
        expr_runs(fields, low, depth) is None,
    ensures
        expr_runs(fields, high, depth) is None,
    decreases high - low,
{
    if low < high {
        expr_runs_stay_bad(fields, low, high - 1, depth);
    }
}

/// An expression that was read, as contracts see it.
pub open spec fn read_outcome(r: Option<WireExpr>) -> Option<WireExprView> {
    match r {
        Some(expr) => Some(expr@),
        None => None,
    }
}

/// The expression that the occurrences of an operand make together.
pub fn read_operand(fields: &Vec<RawField>, tag: u32, depth: u32) -> (r: Option<WireExpr>)
    ensures
        read_outcome(r) == operand_of(with_tag(raw_views(fields@), tag), depth as nat),
    decreases depth, 3int, 0int,
{
    let to: usize = fields.len();
    proof {
        reveal(expr_of);
        assert(raw_views(fields@).subrange(0, to as int) =~= raw_views(fields@));
    }
    if !occurs_in(fields, 0, to, tag) {
        return Some(WireExpr::Absent);
    }
    if depth == 0 {
        return None;
    }
    match merged_in(fields, 0, to, tag, depth) {
        None => None,
        Some(inner) => read_expr(&inner, depth - 1),
    }
}

/// The expression that a message holds.
pub fn read_expr(fields: &Vec<RawField>, depth: u32) -> (r: Option<WireExpr>)
    ensures
        read_outcome(r) == expr_of(raw_views(fields@), depth as nat),
    decreases depth, 2int, 0int,
{
    proof {
        reveal(expr_of);
    }
    let ghost views = raw_views(fields@);
    if !all_passable(fields, 1, 8, depth) {
        return None;
    }
    let mut run: Option<(usize, u32)> = None;
    for i in 0..fields.len()
        invariant
            views == raw_views(fields@),
            passable(views, 1, 8, depth as nat),
            match run {
                Some((from, tag)) => {
                    &&& from < i
                    &&& 1 <= tag <= 8
                    &&& expr_runs(views, i as int, depth as nat) == Some(
                        Some((from as int, tag)),
                    )
                },
                None => expr_runs(views, i as int, depth as nat) == Some(None::<(int, u32)>),
            },
    {
        proof {
            reveal(expr_of);
            assert(views[i as int].tag == fields@[i as int].tag);
            if expr_runs(views, i + 1, depth as nat) is None {
                expr_runs_stay_bad(views, i + 1, fields.len() as int, depth as nat);
            }
        }
        let tag: u32 = fields[i].tag;
        if 1 <= tag && tag <= 8 {
            match run {
                Some((from, current)) => {
                    if current != tag {
                        if read_expr_kind(fields, from, i, current, depth).is_none() {
                            return None;
                        }
                        run = Some((i, tag));
                    }
                },
                None => {
                    run = Some((i, tag));
                },
            }
        }
    }
    match run {
        None => Some(WireExpr::Empty),
        Some((from, tag)) => read_expr_kind(fields, from, fields.len(), tag, depth),
    }
}

fn read_expr_kind(fields: &Vec<RawField>, from: usize, to: usize, tag: u32, depth: u32) -> (r:
    Option<WireExpr>)
    requires
        from <= to <= fields.len(),
        1 <= tag <= 8,
    ensures
        read_outcome(r) == expr_kind(
            raw_views(fields@).subrange(from as int, to as int),
            tag,
            depth as nat,
        ),
    decreases depth, 0int, 0int,
{
    if tag == 1 {
        return match text_in(fields, from, to, 1) {
            Some(name) => Some(WireExpr::Column(name)),
            None => None,
        };
    }
    if tag == 8 {
        return match number_in(fields, from, to, 8) {
            Some(n) => Some(WireExpr::Wildcard(n != 0)),
            None => None,
        };
    }
    if depth == 0 {
        return None;
    }
    let body = match merged_in(fields, from, to, tag, depth) {
        Some(body) => body,
        None => return None,
    };
    let end: usize = body.len();
    let inner: u32 = depth - 1;
    proof {
        assert(raw_views(body@).subrange(0, end as int) =~= raw_views(body@));
    }
    if tag == 2 {
        return match read_value(&body, inner) {
            Some(value) => Some(WireExpr::Literal(value)),
            None => None,
        };
    }
    let last: u32 = if tag == 3 || tag == 7 {
        3
    } else {
        2
    };
    if !all_passable(&body, 1, last, inner) {
        return None;
    }
    if tag == 3 {
        return match (
            read_operand(&body, 1, inner),
            number_in(&body, 0, end, 2),
            read_operand(&body, 3, inner),
        ) {
            (Some(left), Some(operator), Some(right)) => Some(
                WireExpr::Binary {
                    left: Box::new(left),
                    operator: to_code(operator),
                    right: Box::new(right),
                },
            ),
            _ => None,
        };
    }
    if tag == 4 {
        return match (
            read_operand(&body, 1, inner),
            number_in(&body, 0, end, 2),
        ) {
            (Some(expr), Some(negated)) => Some(
                WireExpr::IsNull {
                    expr: Box::new(expr),
                    negated: negated != 0,
                },
            ),
            _ => None,
        };
    }
    if tag == 5 {
        return match (
            read_operand(&body, 1, inner),
            number_in(&body, 0, end, 2),
        ) {
            (Some(expr), Some(data_type)) => Some(
                WireExpr::Cast {
                    expr: Box::new(expr),
                    data_type: to_code(data_type),
                },
            ),
            _ => None,
        };
    }
    if tag == 6 {
        return match (
            read_operand(&body, 1, inner),
            text_in(&body, 0, end, 2),
        ) {
            (Some(expr), Some(alias)) => Some(
                WireExpr::Alias {
                    expr: Box::new(expr),
                    alias,
                },
            ),
            _ => None,
        };
    }
    match (
        number_in(&body, 0, end, 1),
        read_operand(&body, 2, inner),
        number_in(&body, 0, end, 3),
    ) {
        (Some(function), Some(expr), Some(distinct)) => Some(
            WireExpr::Aggregate {
                function: to_code(function),
                expr: Box::new(expr),
                distinct: distinct != 0,
            },
        ),
        _ => None,
    }
}

/// Appends an operand, unless it is absent.
pub(crate) fn push_operand(fields: &mut Vec<RawField>, tag: u32, expr: &WireExpr)
    ensures
        raw_views(final(fields)@) == raw_views(old(fields)@) + operand_slot(tag, expr@),
    decreases expr, 1int,
{
    let ghost earlier = raw_views(fields@);
    match expr {
        WireExpr::Absent => {},
        _ => {
            let inner = write_expr(expr);
            push_message(fields, tag, &inner);
        },
    }
    proof {
        assert(raw_views(fields@) =~= earlier + operand_slot(tag, expr@));
    }
}

/// The message of an expression.
pub fn write_expr(expr: &WireExpr) -> (r: Vec<RawField>)
    ensures
        raw_views(r@) == expr_fields(expr@),
        all_sound(raw_views(r@)),
    decreases expr, 0int,
{
    proof {
        expr_fields_are_sound(expr@);
    }
    let mut fields: Vec<RawField> = Vec::new();
    let mut body: Vec<RawField> = Vec::new();
    let mut tag: u32 = 0;
    proof {
        assert(raw_views(fields@) =~= Seq::empty());
        assert(raw_views(body@) =~= Seq::empty());
    }
    match expr {
        WireExpr::Absent | WireExpr::Empty => {
            return fields;
        },
        WireExpr::Column(name) => {
            push_text(&mut fields, 1, name.as_str());
            proof {
                assert(raw_views(fields@) =~= expr_fields(expr@));
            }
            return fields;
        },
        WireExpr::Wildcard(b) => {
            fields.push(RawField { tag: 8, value: FieldValue::Varint(if *b { 1 } else { 0 }) });
            proof {
                assert(raw_views(fields@) =~= expr_fields(expr@));
            }
            return fields;
        },
        WireExpr::Literal(value) => {
            tag = 2;
            body = write_value(value);
        },
        WireExpr::Binary { left, operator, right } => {
            tag = 3;
            push_operand(&mut body, 1, left);
            push_number(&mut body, 2, to_unsigned(*operator as i64));
            push_operand(&mut body, 3, right);
        },
        WireExpr::IsNull { expr, negated } => {
            tag = 4;
            push_operand(&mut body, 1, expr);
            push_flag(&mut body, 2, *negated);
        },
        WireExpr::Cast { expr, data_type } => {
            tag = 5;
            push_operand(&mut body, 1, expr);
            push_number(&mut body, 2, to_unsigned(*data_type as i64));
        },
        WireExpr::Alias { expr, alias } => {
            tag = 6;
            push_operand(&mut body, 1, expr);
            push_text_slot(&mut body, 2, alias.as_str());
        },
        WireExpr::Aggregate { function, expr, distinct } => {
            tag = 7;
            push_number(&mut body, 1, to_unsigned(*function as i64));
            push_operand(&mut body, 2, expr);
            push_flag(&mut body, 3, *distinct);
        },
    }
    proof {
        assert(raw_views(body@) =~= body_fields(expr@));
    }
    push_message(&mut fields, tag, &body);
    proof {
        assert(raw_views(fields@) =~= expr_fields(expr@));
    }
    fields
}

} // verus!

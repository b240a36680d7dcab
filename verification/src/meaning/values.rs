//! How single values stand to each other.

use crate::cells::cell_value;
use crate::column::ColumnView;
use crate::error::ErrorView;
use crate::evaluate::operated;
use crate::expr::Operator;
use crate::meaning::evaluation::{
    bytes_are_in_dictionary_order, comes_first, compares, is_so, says, texts_compare_by_their_bytes,
    truths_compare, wholes_compare_by_value,
};
use crate::scalar::ScalarView;
use crate::text::Relation;
use vstd::prelude::*;
use vstd::utf8::encode_utf8;

verus! {

/// The distance of a floating-point number from zero, as its bits give it, with its sign.
pub open spec fn signed_magnitude(bits: u64) -> int {
    if bits < 0x8000_0000_0000_0000 {
        bits as int
    } else {
        0x8000_0000_0000_0000 - bits
    }
}

/// Whether the bits are those of no number: all of the exponent is set, and some of the fraction.
pub open spec fn is_no_number(bits: u64) -> bool {
    signed_magnitude(bits) > 0x7FF0_0000_0000_0000 || signed_magnitude(bits)
        < -0x7FF0_0000_0000_0000
}

/// Whether two values are of one type and neither is NULL.
pub open spec fn alike(a: ScalarView, b: ScalarView) -> bool {
    ||| a is Boolean && b is Boolean
    ||| a is Int64 && b is Int64
    ||| a is UInt64 && b is UInt64
    ||| a is Float64 && b is Float64 && !is_no_number(a->Float64_0) && !is_no_number(b->Float64_0)
    ||| a is Utf8 && b is Utf8
}

/// Whether a value is smaller than another of its type.
pub open spec fn smaller(a: ScalarView, b: ScalarView) -> bool {
    match (a, b) {
        (ScalarView::Boolean(x), ScalarView::Boolean(y)) => x == false && y == true,
        (ScalarView::Int64(x), ScalarView::Int64(y)) => x < y,
        (ScalarView::UInt64(x), ScalarView::UInt64(y)) => x < y,
        (ScalarView::Float64(x), ScalarView::Float64(y)) => signed_magnitude(x) < signed_magnitude(
            y,
        ),
        (ScalarView::Utf8(x), ScalarView::Utf8(y)) => comes_first(encode_utf8(x), encode_utf8(y)),
        _ => false,
    }
}

/// Values of one type compare by what they are, NULL comes before everything else, and values of
/// different types do not compare.
pub proof fn values_compare_by_what_they_are(a: ScalarView, b: ScalarView)
    ensures
        a is Null && b is Null ==> a.compare(b) == Some(Relation::Same),
        a is Null && !(b is Null) ==> a.compare(b) == Some(Relation::Less),
        !(a is Null) && b is Null ==> a.compare(b) == Some(Relation::Greater),
        !(a is Null) && !(b is Null) ==> (a.compare(b) is Some <==> alike(a, b)),
        alike(a, b) ==> {
            &&& smaller(a, b) <==> a.compare(b) == Some(Relation::Less)
            &&& smaller(b, a) <==> a.compare(b) == Some(Relation::Greater)
            &&& !smaller(a, b) && !smaller(b, a) <==> a.compare(b) == Some(Relation::Same)
        },
{
    if let (ScalarView::Utf8(s), ScalarView::Utf8(t)) = (a, b) {
        bytes_are_in_dictionary_order(encode_utf8(s), encode_utf8(t));
        bytes_are_in_dictionary_order(encode_utf8(t), encode_utf8(s));
        crate::text::before_is_strict(s, t);
        crate::text::before_is_strict(t, s);
        crate::text::before_is_total(s, t);
    }
}

/// What is smaller than a smaller value is smaller.
pub proof fn smaller_is_transitive(a: ScalarView, b: ScalarView, c: ScalarView)
    requires
        smaller(a, b),
        smaller(b, c),
    ensures
        smaller(a, c),
{
    if let (ScalarView::Utf8(s), ScalarView::Utf8(t), ScalarView::Utf8(u)) = (a, b, c) {
        bytes_are_in_dictionary_order(encode_utf8(s), encode_utf8(t));
        bytes_are_in_dictionary_order(encode_utf8(t), encode_utf8(u));
        bytes_are_in_dictionary_order(encode_utf8(s), encode_utf8(u));
        crate::text::before_is_transitive(s, t, u);
    }
}

/// Comparing two columns compares in each row the values that they have there.
pub proof fn columns_compare_as_their_values(
    op: Operator,
    left: ColumnView,
    right: ColumnView,
    r: ColumnView,
    row: int,
)
    requires
        compares(op),
        left is Boolean && right is Boolean || left is Int32 && right is Int32 || left is Int64
            && right is Int64 || left is UInt32 && right is UInt32 || left is UInt64
            && right is UInt64 || left is Utf8 && right is Utf8,
        left.len() == right.len(),
        0 <= row < left.len(),
        !crate::meaning::evaluation::missing(left, row),
        !crate::meaning::evaluation::missing(right, row),
        operated(op, left, right) == Ok::<ColumnView, ErrorView>(r),
    ensures
        r is Boolean,
        cell_value(left, row) is Ok,
        cell_value(right, row) is Ok,
        ({
            let relation = cell_value(left, row)->Ok_0.compare(cell_value(right, row)->Ok_0);
            says(r, row) == Some(
                is_so(op, relation == Some(Relation::Less), relation == Some(Relation::Same)),
            )
        }),
{
    let (a, b) = (cell_value(left, row)->Ok_0, cell_value(right, row)->Ok_0);
    values_compare_by_what_they_are(a, b);
    match (left, right) {
        (ColumnView::Boolean(l), ColumnView::Boolean(s)) => {
            truths_compare(op, l, s, r, row);
        },
        (ColumnView::Utf8(l), ColumnView::Utf8(s)) => {
            texts_compare_by_their_bytes(op, l, s, r, row);
            crate::text::before_is_total(l[row]->Some_0, s[row]->Some_0);
        },
        _ => {
            wholes_compare_by_value(op, left, right, r, row);
        },
    }
}

} // verus!

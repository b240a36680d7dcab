//! What expressions compute.

use crate::batch::BatchView;
use crate::column::ColumnView;
use crate::error::ErrorView;
use crate::evaluate::{at_type, compared, operand_type, operated};
use crate::expr::{occurrence, ExprView, Occurrence, Operator};
use crate::kernels::{
    float_difference, float_product, float_quotient, float_sum, signed_wholes,
    unsigned_wholes, whole_quotient, whole_result, whole_results, Arithmetic, MAX_CELLS,
};
use crate::scalar::ScalarView;
use crate::text::bytes_before;
use crate::types::DataTypeView;
use vstd::prelude::*;
use vstd::utf8::encode_utf8;

verus! {

// ---- cells

/// Whether a column has no value in a row.
pub open spec fn missing(column: ColumnView, row: int) -> bool {
    match column {
        ColumnView::Null(_) => true,
        ColumnView::Boolean(cells) => cells[row] is None,
        ColumnView::Int32(cells) => cells[row] is None,
        ColumnView::Int64(cells) => cells[row] is None,
        ColumnView::UInt32(cells) => cells[row] is None,
        ColumnView::UInt64(cells) => cells[row] is None,
        ColumnView::Float32(cells) => cells[row] is None,
        ColumnView::Float64(cells) => cells[row] is None,
        ColumnView::Utf8(cells) => cells[row] is None,
    }
}

/// The whole number that a column has in a row.
pub open spec fn whole_at(column: ColumnView, row: int) -> Option<int> {
    match column {
        ColumnView::Int32(cells) => match cells[row] {
            Some(n) => Some(n as int),
            None => None,
        },
        ColumnView::Int64(cells) => match cells[row] {
            Some(n) => Some(n as int),
            None => None,
        },
        ColumnView::UInt32(cells) => match cells[row] {
            Some(n) => Some(n as int),
            None => None,
        },
        ColumnView::UInt64(cells) => match cells[row] {
            Some(n) => Some(n as int),
            None => None,
        },
        _ => None,
    }
}

/// Whether two columns hold whole numbers, both with a sign or both without.
pub open spec fn alike_wholes(left: ColumnView, right: ColumnView) -> bool {
    ||| (left is Int32 || left is Int64) && (right is Int32 || right is Int64)
    ||| (left is UInt32 || left is UInt64) && (right is UInt32 || right is UInt64)
}

/// Whether a column says in a row that something is so, that it is not, or neither.
pub open spec fn says(column: ColumnView, row: int) -> Option<bool>
    recommends
        column is Boolean,
{
    column->Boolean_0[row]
}

// ---- comparisons

/// Whether a comparison is so of values of which one is or is not less than the other, or the same.
pub open spec fn is_so(op: Operator, less: bool, same: bool) -> bool {
    match op {
        Operator::Eq => same,
        Operator::NotEq => !same,
        Operator::Lt => less,
        Operator::LtEq => less || same,
        Operator::Gt => !less && !same,
        Operator::GtEq => !less,
        _ => false,
    }
}

pub open spec fn compares(op: Operator) -> bool {
    op is Eq || op is NotEq || op is Lt || op is LtEq || op is Gt || op is GtEq
}

/// Whole numbers compare by their values, whatever their widths.
pub proof fn wholes_compare_by_value(
    op: Operator,
    left: ColumnView,
    right: ColumnView,
    r: ColumnView,
    row: int,
)
    requires
        compares(op),
        alike_wholes(left, right),
        left.len() == right.len(),
        0 <= row < left.len(),
        whole_at(left, row) is Some,
        whole_at(right, row) is Some,
        operated(op, left, right) == Ok::<ColumnView, ErrorView>(r),
    ensures
        r is Boolean,
        says(r, row) == Some(
            is_so(
                op,
                whole_at(left, row)->Some_0 < whole_at(right, row)->Some_0,
                whole_at(left, row) == whole_at(right, row),
            ),
        ),
{
    let target = operand_type(op, left.data_type(), right.data_type())->Some_0;
    let a = at_type(left, target)->Ok_0;
    let b = at_type(right, target)->Ok_0;
    assert(target == left.data_type() || target is Int64 || target is UInt64);
    widening_keeps_wholes(left, target, row);
    widening_keeps_wholes(right, target, row);
    assert(r == compared(op, a, b));
    wholes_of_one_type(op, a, b, row);
}

/// A whole number stays what it is in the wider type.
proof fn widening_keeps_wholes(column: ColumnView, target: DataTypeView, row: int)
    requires
        0 <= row < column.len(),
        whole_at(column, row) is Some,
        target == column.data_type() || target is Int64 && (column is Int32 || column is Int64)
            || target is UInt64 && (column is UInt32 || column is UInt64),
        at_type(column, target) is Ok,
    ensures
        whole_at(at_type(column, target)->Ok_0, row) == whole_at(column, row),
        at_type(column, target)->Ok_0.data_type() == target,
        at_type(column, target)->Ok_0.len() == column.len(),
{
    if target != column.data_type() {
        crate::values::casting_is_by_cell(column, target, row);
        crate::values::casting_keeps_the_shape(column, target);
    }
}

proof fn wholes_of_one_type(op: Operator, left: ColumnView, right: ColumnView, row: int)
    requires
        compares(op),
        left.data_type() == right.data_type(),
        left.len() == right.len(),
        0 <= row < left.len(),
        whole_at(left, row) is Some,
        whole_at(right, row) is Some,
    ensures
        says(compared(op, left, right), row) == Some(
            is_so(
                op,
                whole_at(left, row)->Some_0 < whole_at(right, row)->Some_0,
                whole_at(left, row) == whole_at(right, row),
            ),
        ),
{
}

/// Whether one list of bytes comes before another: at the first byte in which they differ it has the
/// smaller one, or it ends where the other goes on.
pub open spec fn comes_first(a: Seq<u8>, b: Seq<u8>) -> bool {
    exists|k: int|
        {
            &&& 0 <= k <= a.len()
            &&& k <= b.len()
            &&& #[trigger] a.take(k) == b.take(k)
            &&& k < b.len()
            &&& k == a.len() || a[k] < b[k]
        }
}

/// The order of bytes is the one of a dictionary.
pub proof fn bytes_are_in_dictionary_order(a: Seq<u8>, b: Seq<u8>)
    ensures
        bytes_before(a, b) <==> comes_first(a, b),
    decreases a.len(),
{
    if b.len() > 0 && a.len() > 0 {
        let (x, y) = (a.drop_first(), b.drop_first());
        bytes_are_in_dictionary_order(x, y);
        if bytes_before(a, b) {
            if a[0] != b[0] {
                assert(a.take(0) =~= b.take(0));
            } else {
                let k = choose|k: int|
                    {
                        &&& 0 <= k <= x.len()
                        &&& k <= y.len()
                        &&& #[trigger] x.take(k) == y.take(k)
                        &&& k < y.len()
                        &&& k == x.len() || x[k] < y[k]
                    };
                let (p, q) = (a.take(k + 1), b.take(k + 1));
                assert forall|i: int| 0 <= i < k + 1 implies #[trigger] p[i] == q[i] by {
                    if i > 0 {
                        assert(x.take(k)[i - 1] == y.take(k)[i - 1]);
                    }
                }
                assert(p =~= q);
            }
        }
        if comes_first(a, b) {
            let k = choose|k: int|
                {
                    &&& 0 <= k <= a.len()
                    &&& k <= b.len()
                    &&& #[trigger] a.take(k) == b.take(k)
                    &&& k < b.len()
                    &&& k == a.len() || a[k] < b[k]
                };
            if k > 0 {
                assert(a.take(k)[0] == b.take(k)[0]);
                let (p, q) = (x.take(k - 1), y.take(k - 1));
                assert forall|i: int| 0 <= i < k - 1 implies #[trigger] p[i] == q[i] by {
                    assert(a.take(k)[i + 1] == b.take(k)[i + 1]);
                }
                assert(p =~= q);
            }
        }
    } else if b.len() > 0 {
        assert(a.take(0) =~= b.take(0));
    }
}

/// Texts compare by their bytes in UTF-8, as in a dictionary.
pub proof fn texts_compare_by_their_bytes(
    op: Operator,
    left: Seq<Option<Seq<char>>>,
    right: Seq<Option<Seq<char>>>,
    r: ColumnView,
    row: int,
)
    requires
        compares(op),
        left.len() == right.len(),
        0 <= row < left.len(),
        left[row] is Some,
        right[row] is Some,
        operated(op, ColumnView::Utf8(left), ColumnView::Utf8(right)) == Ok::<
            ColumnView,
            ErrorView,
        >(r),
    ensures
        r is Boolean,
        says(r, row) == Some(
            is_so(
                op,
                comes_first(encode_utf8(left[row]->Some_0), encode_utf8(right[row]->Some_0)),
                left[row] == right[row],
            ),
        ),
{
    let (a, b) = (left[row]->Some_0, right[row]->Some_0);
    bytes_are_in_dictionary_order(encode_utf8(a), encode_utf8(b));
    crate::text::before_is_strict(a, b);
}

/// Of truth values, what is not so comes before what is.
pub proof fn truths_compare(
    op: Operator,
    left: Seq<Option<bool>>,
    right: Seq<Option<bool>>,
    r: ColumnView,
    row: int,
)
    requires
        compares(op),
        left.len() == right.len(),
        0 <= row < left.len(),
        left[row] is Some,
        right[row] is Some,
        operated(op, ColumnView::Boolean(left), ColumnView::Boolean(right)) == Ok::<
            ColumnView,
            ErrorView,
        >(r),
    ensures
        r is Boolean,
        says(r, row) == Some(
            is_so(op, left[row] == Some(false) && right[row] == Some(true), left[row] == right[row]),
        ),
{
}

/// Whether a double-precision number stands before another, by their bits: a negative one before any
/// other, and of two with one sign the one that is nearer to zero before or behind.
pub open spec fn stands_before(a: u64, b: u64) -> bool {
    let negative = 0x8000_0000_0000_0000u64;
    if a >= negative && b >= negative {
        a > b
    } else if a >= negative || b >= negative {
        a >= negative
    } else {
        a < b
    }
}

pub open spec fn single_stands_before(a: u32, b: u32) -> bool {
    let negative = 0x8000_0000u32;
    if a >= negative && b >= negative {
        a > b
    } else if a >= negative || b >= negative {
        a >= negative
    } else {
        a < b
    }
}

/// Floating-point numbers compare by sign and magnitude.
pub proof fn floats_compare_by_sign_and_magnitude(
    op: Operator,
    left: Seq<Option<u64>>,
    right: Seq<Option<u64>>,
    r: ColumnView,
    row: int,
)
    requires
        compares(op),
        left.len() == right.len(),
        0 <= row < left.len(),
        left[row] is Some,
        right[row] is Some,
        operated(op, ColumnView::Float64(left), ColumnView::Float64(right)) == Ok::<
            ColumnView,
            ErrorView,
        >(r),
    ensures
        r is Boolean,
        says(r, row) == Some(
            is_so(
                op,
                stands_before(left[row]->Some_0, right[row]->Some_0),
                left[row] == right[row],
            ),
        ),
{
}

/// The same in single precision.
pub proof fn singles_compare_by_sign_and_magnitude(
    op: Operator,
    left: Seq<Option<u32>>,
    right: Seq<Option<u32>>,
    r: ColumnView,
    row: int,
)
    requires
        compares(op),
        left.len() == right.len(),
        0 <= row < left.len(),
        left[row] is Some,
        right[row] is Some,
        operated(op, ColumnView::Float32(left), ColumnView::Float32(right)) == Ok::<
            ColumnView,
            ErrorView,
        >(r),
    ensures
        r is Boolean,
        says(r, row) == Some(
            is_so(
                op,
                single_stands_before(left[row]->Some_0, right[row]->Some_0),
                left[row] == right[row],
            ),
        ),
{
}

/// A comparison with NULL is neither so nor not so.
pub proof fn comparing_with_null(
    op: Operator,
    left: ColumnView,
    right: ColumnView,
    r: ColumnView,
    row: int,
)
    requires
        compares(op),
        left.len() == right.len(),
        0 <= row < left.len(),
        missing(left, row) || missing(right, row),
        operated(op, left, right) == Ok::<ColumnView, ErrorView>(r),
    ensures
        r is Boolean,
        says(r, row) is None,
{
    if !(left is Null && right is Null) {
        let target = crate::evaluate::operand_type(op, left.data_type(), right.data_type())->Some_0;
        if left.data_type() != target {
            crate::values::casting_is_by_cell(left, target, row);
            crate::values::casting_keeps_the_shape(left, target);
        }
        if right.data_type() != target {
            crate::values::casting_is_by_cell(right, target, row);
            crate::values::casting_keeps_the_shape(right, target);
        }
    }
}

// ---- truth values

/// AND is so where both sides are, and not so where either is not; else it is neither. OR is so where
/// either side is, and not so where neither is.
pub proof fn truths_are_put_together(
    left: Seq<Option<bool>>,
    right: Seq<Option<bool>>,
    both: ColumnView,
    either: ColumnView,
    row: int,
)
    requires
        left.len() == right.len(),
        0 <= row < left.len(),
        operated(Operator::And, ColumnView::Boolean(left), ColumnView::Boolean(right)) == Ok::<
            ColumnView,
            ErrorView,
        >(both),
        operated(Operator::Or, ColumnView::Boolean(left), ColumnView::Boolean(right)) == Ok::<
            ColumnView,
            ErrorView,
        >(either),
    ensures
        both is Boolean && either is Boolean,
        says(both, row) == Some(true) <==> left[row] == Some(true) && right[row] == Some(true),
        says(both, row) == Some(false) <==> left[row] == Some(false) || right[row] == Some(false),
        says(either, row) == Some(true) <==> left[row] == Some(true) || right[row] == Some(true),
        says(either, row) == Some(false) <==> left[row] == Some(false) && right[row] == Some(false),
{
}

// ---- arithmetic

/// Whether a whole number is what an operation makes of two others. A quotient has no fraction: what
/// is left over has the sign of the dividend, and is nearer to zero than the divisor.
pub open spec fn is_result(op: Operator, a: int, b: int, n: int) -> bool {
    match op {
        Operator::Add => n == a + b,
        Operator::Subtract => n + b == a,
        Operator::Multiply => n == a * b,
        Operator::Divide => {
            let left_over = a - n * b;
            &&& b != 0
            &&& if a >= 0 {
                0 <= left_over
            } else {
                left_over <= 0
            }
            &&& -absolute(b) < left_over < absolute(b)
        },
        _ => false,
    }
}

pub open spec fn absolute(n: int) -> int {
    if n < 0 {
        -n
    } else {
        n
    }
}

proof fn quotients_are_exact(a: int, b: int)
    requires
        b != 0,
    ensures
        is_result(Operator::Divide, a, b, whole_quotient(a, b)),
{
    let p = absolute(a);
    let q = absolute(b);
    let n = p / q;
    assert(p == q * n + p % q && 0 <= p % q < q) by (nonlinear_arith)
        requires
            p >= 0,
            q > 0,
            n == p / q,
    ;
    assert(whole_quotient(a, b) == n || whole_quotient(a, b) == -n);
    assert(n * b == if b > 0 {
        q * n
    } else {
        -(q * n)
    }) by (nonlinear_arith)
        requires
            q == (if b < 0 {
                -b
            } else {
                b
            }),
    ;
    assert((-n) * b == -(n * b)) by (nonlinear_arith);
}

pub open spec fn computes(op: Operator) -> bool {
    op is Add || op is Subtract || op is Multiply || op is Divide
}

/// Whether an operation on two whole numbers has no result between a least and a greatest one.
pub open spec fn has_no_result(op: Operator, a: int, b: int, least: int, greatest: int) -> bool {
    op is Divide && b == 0 || exists|n: int|
        #[trigger] is_result(op, a, b, n) && !(least <= n <= greatest)
}

spec fn operation_of(op: Operator) -> Arithmetic {
    match op {
        Operator::Add => Arithmetic::Add,
        Operator::Subtract => Arithmetic::Subtract,
        Operator::Multiply => Arithmetic::Multiply,
        _ => Arithmetic::Divide,
    }
}

proof fn one_result(op: Operator, a: int, b: int, least: int, greatest: int)
    requires
        computes(op),
    ensures
        match whole_result(operation_of(op), a, b, least, greatest) {
            Ok(n) => is_result(op, a, b, n) && least <= n <= greatest,
            Err(_) => has_no_result(op, a, b, least, greatest),
        },
{
    if op is Divide && b != 0 {
        quotients_are_exact(a, b);
    }
    let n = match op {
        Operator::Add => a + b,
        Operator::Subtract => a - b,
        Operator::Multiply => a * b,
        _ => whole_quotient(a, b),
    };
    if !(op is Divide && b == 0) {
        assert(is_result(op, a, b, n));
    }
}

proof fn results_are_by_row(
    op: Operator,
    left: Seq<Option<int>>,
    right: Seq<Option<int>>,
    least: int,
    greatest: int,
    upto: int,
)
    requires
        computes(op),
        0 <= upto <= left.len(),
        left.len() == right.len(),
    ensures
        match whole_results(operation_of(op), left, right, least, greatest, upto) {
            Ok(cells) => cells.len() == upto && forall|row: int|
                0 <= row < upto ==> match (left[row], right[row]) {
                    (Some(a), Some(b)) => (#[trigger] cells[row]) is Some && is_result(
                        op,
                        a,
                        b,
                        cells[row]->Some_0,
                    ) && least <= cells[row]->Some_0 <= greatest,
                    _ => (#[trigger] cells[row]) is None,
                },
            Err(_) => exists|row: int|
                0 <= row < upto && (#[trigger] left[row]) is Some && right[row] is Some
                    && has_no_result(
                    op,
                    left[row]->Some_0,
                    right[row]->Some_0,
                    least,
                    greatest,
                ),
        },
    decreases upto,
{
    if upto > 0 {
        results_are_by_row(op, left, right, least, greatest, upto - 1);
        let operation = operation_of(op);
        if let (Some(a), Some(b)) = (left[upto - 1], right[upto - 1]) {
            one_result(op, a, b, least, greatest);
        }
        match whole_results(operation, left, right, least, greatest, upto) {
            Ok(cells) => {
                let before = whole_results(
                    operation,
                    left,
                    right,
                    least,
                    greatest,
                    upto - 1,
                )->Ok_0;
                assert forall|row: int| 0 <= row < upto implies match (left[row], right[row]) {
                    (Some(a), Some(b)) => (#[trigger] cells[row]) is Some && is_result(
                        op,
                        a,
                        b,
                        cells[row]->Some_0,
                    ) && least <= cells[row]->Some_0 <= greatest,
                    _ => (#[trigger] cells[row]) is None,
                } by {
                    if row < upto - 1 {
                        assert(cells[row] == before[row]);
                    }
                }
            },
            Err(_) => {
                if whole_results(operation, left, right, least, greatest, upto - 1) is Err {
                    let row = choose|row: int|
                        0 <= row < upto - 1 && (#[trigger] left[row]) is Some && right[row] is Some
                            && has_no_result(
                            op,
                            left[row]->Some_0,
                            right[row]->Some_0,
                            least,
                            greatest,
                        );
                    assert(left[row] is Some);
                } else {
                    assert(left[upto - 1] is Some);
                }
            },
        }
    }
}

/// Arithmetic on whole numbers with a sign is that of the numbers, row by row, and NULL where either
/// is. It fails only where some row has no result that fits.
pub proof fn signed_arithmetic_is_that_of_the_numbers(
    op: Operator,
    left: Seq<Option<i64>>,
    right: Seq<Option<i64>>,
)
    requires
        computes(op),
        left.len() == right.len(),
        left.len() <= MAX_CELLS,
    ensures
        match operated(op, ColumnView::Int64(left), ColumnView::Int64(right)) {
            Ok(r) => r is Int64 && r->Int64_0.len() == left.len() && forall|row: int|
                0 <= row < left.len() ==> match (left[row], right[row]) {
                    (Some(a), Some(b)) => (#[trigger] r->Int64_0[row]) is Some && is_result(
                        op,
                        a as int,
                        b as int,
                        r->Int64_0[row]->Some_0 as int,
                    ),
                    _ => (#[trigger] r->Int64_0[row]) is None,
                },
            Err(_) => exists|row: int|
                0 <= row < left.len() && (#[trigger] left[row]) is Some && right[row] is Some
                    && has_no_result(
                    op,
                    left[row]->Some_0 as int,
                    right[row]->Some_0 as int,
                    i64::MIN as int,
                    i64::MAX as int,
                ),
        },
{
    let (a, b) = (signed_wholes(left), signed_wholes(right));
    results_are_by_row(op, a, b, i64::MIN as int, i64::MAX as int, left.len() as int);
    match whole_results(
        operation_of(op),
        a,
        b,
        i64::MIN as int,
        i64::MAX as int,
        left.len() as int,
    ) {
        Ok(cells) => {
            let r = operated(op, ColumnView::Int64(left), ColumnView::Int64(right))->Ok_0;
            assert forall|row: int| 0 <= row < left.len() implies match (left[row], right[row]) {
                (Some(x), Some(y)) => (#[trigger] r->Int64_0[row]) is Some && is_result(
                    op,
                    x as int,
                    y as int,
                    r->Int64_0[row]->Some_0 as int,
                ),
                _ => (#[trigger] r->Int64_0[row]) is None,
            } by {
                let cell = cells[row];
            }
        },
        Err(_) => {
            let row = choose|row: int|
                0 <= row < left.len() && (#[trigger] a[row]) is Some && b[row] is Some
                    && has_no_result(
                    op,
                    a[row]->Some_0,
                    b[row]->Some_0,
                    i64::MIN as int,
                    i64::MAX as int,
                );
            assert(left[row] is Some);
        },
    }
}

/// The same without a sign.
pub proof fn unsigned_arithmetic_is_that_of_the_numbers(
    op: Operator,
    left: Seq<Option<u64>>,
    right: Seq<Option<u64>>,
)
    requires
        computes(op),
        left.len() == right.len(),
        left.len() <= MAX_CELLS,
    ensures
        match operated(op, ColumnView::UInt64(left), ColumnView::UInt64(right)) {
            Ok(r) => r is UInt64 && r->UInt64_0.len() == left.len() && forall|row: int|
                0 <= row < left.len() ==> match (left[row], right[row]) {
                    (Some(a), Some(b)) => (#[trigger] r->UInt64_0[row]) is Some && is_result(
                        op,
                        a as int,
                        b as int,
                        r->UInt64_0[row]->Some_0 as int,
                    ),
                    _ => (#[trigger] r->UInt64_0[row]) is None,
                },
            Err(_) => exists|row: int|
                0 <= row < left.len() && (#[trigger] left[row]) is Some && right[row] is Some
                    && has_no_result(
                    op,
                    left[row]->Some_0 as int,
                    right[row]->Some_0 as int,
                    0,
                    u64::MAX as int,
                ),
        },
{
    let (a, b) = (unsigned_wholes(left), unsigned_wholes(right));
    results_are_by_row(op, a, b, 0, u64::MAX as int, left.len() as int);
    match whole_results(operation_of(op), a, b, 0, u64::MAX as int, left.len() as int) {
        Ok(cells) => {
            let r = operated(op, ColumnView::UInt64(left), ColumnView::UInt64(right))->Ok_0;
            assert forall|row: int| 0 <= row < left.len() implies match (left[row], right[row]) {
                (Some(x), Some(y)) => (#[trigger] r->UInt64_0[row]) is Some && is_result(
                    op,
                    x as int,
                    y as int,
                    r->UInt64_0[row]->Some_0 as int,
                ),
                _ => (#[trigger] r->UInt64_0[row]) is None,
            } by {
                let cell = cells[row];
            }
        },
        Err(_) => {
            let row = choose|row: int|
                0 <= row < left.len() && (#[trigger] a[row]) is Some && b[row] is Some
                    && has_no_result(op, a[row]->Some_0, b[row]->Some_0, 0, u64::MAX as int);
            assert(left[row] is Some);
        },
    }
}

/// Arithmetic on double-precision numbers is that of the numbers in each row, and NULL where either
/// is; it does not fail.
pub proof fn float_arithmetic_is_by_row(
    op: Operator,
    left: Seq<Option<u64>>,
    right: Seq<Option<u64>>,
    row: int,
)
    requires
        computes(op),
        left.len() == right.len(),
        left.len() <= MAX_CELLS,
        0 <= row < left.len(),
    ensures
        ({
            let r = operated(op, ColumnView::Float64(left), ColumnView::Float64(right));
            &&& r is Ok
            &&& r->Ok_0 is Float64
            &&& left[row] is None || right[row] is None ==> r->Ok_0->Float64_0[row] is None
            &&& left[row] is Some && right[row] is Some ==> {
                let (a, b) = (left[row]->Some_0, right[row]->Some_0);
                &&& op is Add ==> r->Ok_0->Float64_0[row] == Some(float_sum(a, b))
                &&& op is Subtract ==> r->Ok_0->Float64_0[row] == Some(float_difference(a, b))
                &&& op is Multiply ==> r->Ok_0->Float64_0[row] == Some(float_product(a, b))
                &&& op is Divide ==> r->Ok_0->Float64_0[row] == Some(float_quotient(a, b))
            }
        }),
{
}

// ---- expressions

proof fn one_name(names: Seq<Seq<char>>, name: Seq<char>, at: int, upto: int)
    requires
        0 <= at < names.len(),
        0 <= upto <= names.len(),
        names[at] == name,
        forall|i: int| 0 <= i < names.len() && i != at ==> names[i] != name,
    ensures
        occurrence(names, name, upto) == if at < upto {
            Occurrence::Once(at)
        } else {
            Occurrence::Nowhere
        },
    decreases upto,
{
    if upto > 0 {
        one_name(names, name, at, upto - 1);
    }
}

/// A name stands for the column that has it.
pub proof fn a_name_stands_for_its_column(batch: BatchView, name: Seq<char>, at: int)
    requires
        0 <= at < batch.schema.fields.len(),
        batch.schema.fields[at].name == name,
        forall|i: int|
            0 <= i < batch.schema.fields.len() && i != at ==> (
            #[trigger] batch.schema.fields[i]).name != name,
    ensures
        ExprView::Column(name).value(batch) == Ok::<ColumnView, ErrorView>(batch.columns[at]),
{
    let names = batch.schema.names();
    assert forall|i: int| 0 <= i < names.len() && i != at implies names[i] != name by {
        assert(batch.schema.fields[i].name != name);
    }
    one_name(names, name, at, names.len() as int);
}

/// A literal has its value in every row.
pub proof fn a_literal_has_its_value(batch: BatchView, value: ScalarView, row: int)
    requires
        0 <= row < batch.rows,
    ensures
        ExprView::Literal(value).value(batch) matches Ok(r) && r.len() == batch.rows && match value {
            ScalarView::Null => r is Null,
            ScalarView::Boolean(b) => r is Boolean && r->Boolean_0[row] == Some(b),
            ScalarView::Int64(n) => r is Int64 && r->Int64_0[row] == Some(n),
            ScalarView::UInt64(n) => r is UInt64 && r->UInt64_0[row] == Some(n),
            ScalarView::Float64(bits) => r is Float64 && r->Float64_0[row] == Some(bits),
            ScalarView::Utf8(text) => r is Utf8 && r->Utf8_0[row] == Some(text),
        },
{
}

/// IS NULL says of every row whether there is no value, and IS NOT NULL whether there is one: neither
/// is ever NULL itself. An alias has the value of what it names.
pub proof fn null_tests_and_aliases(expr: ExprView, alias: Seq<char>, batch: BatchView, row: int)
    requires
        batch.wf(),
        expr.value(batch) is Ok,
        0 <= row < batch.rows,
    ensures
        ({
            let column = expr.value(batch)->Ok_0;
            let tested = (ExprView::IsNull { expr: Box::new(expr), negated: false }).value(batch);
            let inverse = (ExprView::IsNull { expr: Box::new(expr), negated: true }).value(batch);
            &&& tested is Ok && tested->Ok_0 is Boolean
            &&& inverse is Ok && inverse->Ok_0 is Boolean
            &&& says(tested->Ok_0, row) == Some(missing(column, row))
            &&& says(inverse->Ok_0, row) == Some(!missing(column, row))
            &&& ExprView::Alias(Box::new(expr), alias).value(batch) == expr.value(batch)
        }),
{
    crate::values::values_are_typed(expr, batch);
}

/// An operation on expressions is the operation on their values, the left one first.
pub proof fn operations_work_on_values(
    left: ExprView,
    op: Operator,
    right: ExprView,
    batch: BatchView,
)
    requires
        left.value(batch) is Ok,
        right.value(batch) is Ok,
    ensures
        (ExprView::Binary { left: Box::new(left), op, right: Box::new(right) }).value(batch)
            == operated(op, left.value(batch)->Ok_0, right.value(batch)->Ok_0),
{
}

/// The least and the greatest whole number of a type.
pub open spec fn least_of(data_type: DataTypeView) -> int {
    match data_type {
        DataTypeView::Int32 => -0x8000_0000,
        DataTypeView::Int64 => -0x8000_0000_0000_0000,
        _ => 0,
    }
}

pub open spec fn greatest_of(data_type: DataTypeView) -> int {
    match data_type {
        DataTypeView::Int32 => 0x7FFF_FFFF,
        DataTypeView::Int64 => 0x7FFF_FFFF_FFFF_FFFF,
        DataTypeView::UInt32 => 0xFFFF_FFFF,
        _ => 0xFFFF_FFFF_FFFF_FFFF,
    }
}

/// A cast between whole numbers keeps each that the other type has, and makes NULL of each that it has
/// not.
pub proof fn casts_keep_whole_numbers(
    expr: ExprView,
    data_type: DataTypeView,
    batch: BatchView,
    row: int,
)
    requires
        batch.wf(),
        batch.rows <= MAX_CELLS,
        expr.value(batch) is Ok,
        0 <= row < batch.rows,
        whole_at(expr.value(batch)->Ok_0, row) is Some,
        data_type is Int32 || data_type is Int64 || data_type is UInt32 || data_type is UInt64,
    ensures
        ({
            let n = whole_at(expr.value(batch)->Ok_0, row)->Some_0;
            let r = (ExprView::Cast { expr: Box::new(expr), data_type }).value(batch);
            &&& r is Ok
            &&& r->Ok_0.data_type() == data_type
            &&& least_of(data_type) <= n <= greatest_of(data_type) ==> whole_at(r->Ok_0, row)
                == Some(n)
            &&& !(least_of(data_type) <= n <= greatest_of(data_type)) ==> missing(r->Ok_0, row)
        }),
{
    let column = expr.value(batch)->Ok_0;
    crate::values::values_are_typed(expr, batch);
    crate::values::casting_is_by_cell(column, data_type, row);
    crate::values::casting_keeps_the_shape(column, data_type);
}

/// A cast of NULL is NULL, and a cast to the type that a column has changes nothing in it.
pub proof fn casts_keep_nulls(
    expr: ExprView,
    data_type: DataTypeView,
    batch: BatchView,
    row: int,
)
    requires
        batch.wf(),
        expr.value(batch) is Ok,
        0 <= row < batch.rows,
    ensures
        (ExprView::Cast { expr: Box::new(expr), data_type }).value(batch) matches Ok(r) ==> {
            let column = expr.value(batch)->Ok_0;
            &&& r.len() == batch.rows
            &&& missing(column, row) ==> missing(r, row)
            &&& column.data_type() == data_type && !(data_type is Float32) && !(
            data_type is Float64) ==> r.cell(row) == column.cell(row)
        },
{
    let column = expr.value(batch)->Ok_0;
    crate::values::values_are_typed(expr, batch);
    if !(data_type is Other) {
        crate::values::casting_is_by_cell(column, data_type, row);
        crate::values::casting_keeps_the_shape(column, data_type);
    }
}

} // verus!

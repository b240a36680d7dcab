//! Single values.

use crate::text::{before, relate, Relation};
use crate::types::{DataType, DataTypeView};
use vstd::prelude::*;

verus! {

/// A single value. A floating-point number is held by its IEEE 754 bits.
#[derive(Debug, PartialEq, Eq, Hash)]
pub enum ScalarValue {
    Null,
    Boolean(bool),
    Int64(i64),
    UInt64(u64),
    Float64(u64),
    Utf8(String),
}

pub enum ScalarView {
    Null,
    Boolean(bool),
    Int64(i64),
    UInt64(u64),
    Float64(u64),
    Utf8(Seq<char>),
}

impl View for ScalarValue {
    type V = ScalarView;

    open spec fn view(&self) -> ScalarView {
        match self {
            ScalarValue::Null => ScalarView::Null,
            ScalarValue::Boolean(b) => ScalarView::Boolean(*b),
            ScalarValue::Int64(n) => ScalarView::Int64(*n),
            ScalarValue::UInt64(n) => ScalarView::UInt64(*n),
            ScalarValue::Float64(bits) => ScalarView::Float64(*bits),
            ScalarValue::Utf8(s) => ScalarView::Utf8(s@),
        }
    }
}

impl Clone for ScalarValue {
    fn clone(&self) -> (r: Self)
        ensures
            r@ == self@,
    {
        match self {
            ScalarValue::Null => ScalarValue::Null,
            ScalarValue::Boolean(b) => ScalarValue::Boolean(*b),
            ScalarValue::Int64(n) => ScalarValue::Int64(*n),
            ScalarValue::UInt64(n) => ScalarValue::UInt64(*n),
            ScalarValue::Float64(bits) => ScalarValue::Float64(*bits),
            ScalarValue::Utf8(s) => ScalarValue::Utf8(s.clone()),
        }
    }
}

/// The sign bit of a floating-point number.
pub const SIGN_BIT: u64 = 0x8000_0000_0000_0000;

/// The bits of positive infinity.
pub const INFINITY_BITS: u64 = 0x7FF0_0000_0000_0000;

/// The bits of a floating-point number without its sign.
pub open spec fn float_magnitude(bits: u64) -> int {
    if bits >= SIGN_BIT {
        bits - SIGN_BIT
    } else {
        bits as int
    }
}

/// Whether bits are those of no number.
pub open spec fn is_nan(bits: u64) -> bool {
    float_magnitude(bits) > INFINITY_BITS
}

/// A whole number that orders floating-point numbers: both zeros get the same.
pub open spec fn float_rank(bits: u64) -> int {
    if bits >= SIGN_BIT {
        -float_magnitude(bits)
    } else {
        float_magnitude(bits)
    }
}

/// How two values of a linear order stand to each other.
pub open spec fn relation_of(less: bool, same: bool) -> Relation {
    if less {
        Relation::Less
    } else if same {
        Relation::Same
    } else {
        Relation::Greater
    }
}

impl ScalarView {
    pub open spec fn data_type(self) -> DataTypeView {
        match self {
            ScalarView::Null => DataTypeView::Null,
            ScalarView::Boolean(_) => DataTypeView::Boolean,
            ScalarView::Int64(_) => DataTypeView::Int64,
            ScalarView::UInt64(_) => DataTypeView::UInt64,
            ScalarView::Float64(_) => DataTypeView::Float64,
            ScalarView::Utf8(_) => DataTypeView::Utf8,
        }
    }

    /// How a value stands to another, where both are of one type or one is NULL, which comes
    /// first. A floating-point number that is none stands in no order.
    pub open spec fn compare(self, other: ScalarView) -> Option<Relation> {
        match (self, other) {
            (ScalarView::Null, ScalarView::Null) => Some(Relation::Same),
            (ScalarView::Null, _) => Some(Relation::Less),
            (_, ScalarView::Null) => Some(Relation::Greater),
            (ScalarView::Boolean(a), ScalarView::Boolean(b)) => Some(
                relation_of(!a && b, a == b),
            ),
            (ScalarView::Int64(a), ScalarView::Int64(b)) => Some(relation_of(a < b, a == b)),
            (ScalarView::UInt64(a), ScalarView::UInt64(b)) => Some(relation_of(a < b, a == b)),
            (ScalarView::Float64(a), ScalarView::Float64(b)) => {
                if is_nan(a) || is_nan(b) {
                    None
                } else {
                    Some(relation_of(float_rank(a) < float_rank(b), float_rank(a) == float_rank(b)))
                }
            },
            (ScalarView::Utf8(a), ScalarView::Utf8(b)) => Some(relation_of(before(a, b), a == b)),
            _ => None,
        }
    }
}

/// Values compare the other way round when they change places.
pub proof fn compare_is_antisymmetric(a: ScalarView, b: ScalarView)
    ensures
        a.compare(b) is None <==> b.compare(a) is None,
        a.compare(b) == Some(Relation::Less) <==> b.compare(a) == Some(Relation::Greater),
        a.compare(b) == Some(Relation::Same) <==> b.compare(a) == Some(Relation::Same),
{
    if let (ScalarView::Utf8(s), ScalarView::Utf8(t)) = (a, b) {
        crate::text::before_is_strict(s, t);
        crate::text::before_is_total(s, t);
    }
}

fn relation(less: bool, same: bool) -> (r: Relation)
    ensures
        r == relation_of(less, same),
{
    if less {
        Relation::Less
    } else if same {
        Relation::Same
    } else {
        Relation::Greater
    }
}

fn rank(bits: u64) -> (r: i128)
    ensures
        r == float_rank(bits),
{
    if bits >= SIGN_BIT {
        -((bits - SIGN_BIT) as i128)
    } else {
        bits as i128
    }
}

fn nan(bits: u64) -> (r: bool)
    ensures
        r == is_nan(bits),
{
    if bits >= SIGN_BIT {
        bits - SIGN_BIT > INFINITY_BITS
    } else {
        bits > INFINITY_BITS
    }
}

impl ScalarValue {
    pub fn data_type(&self) -> (r: DataType)
        ensures
            r@ == self@.data_type(),
    {
        match self {
            ScalarValue::Null => DataType::Null,
            ScalarValue::Boolean(_) => DataType::Boolean,
            ScalarValue::Int64(_) => DataType::Int64,
            ScalarValue::UInt64(_) => DataType::UInt64,
            ScalarValue::Float64(_) => DataType::Float64,
            ScalarValue::Utf8(_) => DataType::Utf8,
        }
    }

    /// How this value stands to another, where there is an order between them.
    pub fn partial_compare(&self, other: &Self) -> (r: Option<Relation>)
        ensures
            r == self@.compare(other@),
    {
        match (self, other) {
            (ScalarValue::Null, ScalarValue::Null) => Some(Relation::Same),
            (ScalarValue::Null, _) => Some(Relation::Less),
            (_, ScalarValue::Null) => Some(Relation::Greater),
            (ScalarValue::Boolean(a), ScalarValue::Boolean(b)) => Some(relation(!*a && *b, *a == *b)),
            (ScalarValue::Int64(a), ScalarValue::Int64(b)) => Some(relation(*a < *b, *a == *b)),
            (ScalarValue::UInt64(a), ScalarValue::UInt64(b)) => Some(relation(*a < *b, *a == *b)),
            (ScalarValue::Float64(a), ScalarValue::Float64(b)) => {
                if nan(*a) || nan(*b) {
                    None
                } else {
                    Some(relation(rank(*a) < rank(*b), rank(*a) == rank(*b)))
                }
            },
            (ScalarValue::Utf8(a), ScalarValue::Utf8(b)) => {
                proof {
                    crate::text::before_is_strict(a@, b@);
                    crate::text::before_is_total(a@, b@);
                }
                Some(relate(a.as_str(), b.as_str()))
            },
            _ => None,
        }
    }

    /// Whether two values are the same: floating-point numbers by their bits.
    pub fn same(&self, other: &Self) -> (r: bool)
        ensures
            r == (self@ == other@),
    {
        match (self, other) {
            (ScalarValue::Null, ScalarValue::Null) => true,
            (ScalarValue::Boolean(a), ScalarValue::Boolean(b)) => *a == *b,
            (ScalarValue::Int64(a), ScalarValue::Int64(b)) => *a == *b,
            (ScalarValue::UInt64(a), ScalarValue::UInt64(b)) => *a == *b,
            (ScalarValue::Float64(a), ScalarValue::Float64(b)) => *a == *b,
            (ScalarValue::Utf8(a), ScalarValue::Utf8(b)) => *a == *b,
            _ => false,
        }
    }

    pub fn is_null(&self) -> (r: bool)
        ensures
            r == self@ is Null,
    {
        match self {
            ScalarValue::Null => true,
            _ => false,
        }
    }
}

pub open spec fn scalar_views(values: Seq<ScalarValue>) -> Seq<ScalarView> {
    Seq::new(values.len(), |i: int| values[i]@)
}

} // verus!

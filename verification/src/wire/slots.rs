//! Reading and writing the fields of a message by their numbers.
//!
//! A field that occurs more than once counts as the last of its occurrences, a list as all of
//! them, and a message as all of them put together. A number, text or truth value that is not
//! there is zero, empty or false, and is not written when it is.

use crate::wire::fields::{
    all_sound, all_writable, message_bytes, message_bytes_of_concatenation, message_reads_back, parse_message, parsed, raw_views,
    write_message, FieldValue, RawField, RawView, ValueView,
};
use crate::wire::varint::{read_varint, varint, varint_at, varint_reads_back, write_varint};
use vstd::prelude::*;
use vstd::utf8::{decode_utf8, encode_utf8, valid_utf8};

verus! {

/// The fields with a number, in order.
#[verifier::opaque]
pub open spec fn with_tag(fields: Seq<RawView>, tag: u32) -> Seq<RawView>
    decreases fields.len(),
{
    if fields.len() == 0 {
        Seq::empty()
    } else if fields.last().tag == tag {
        with_tag(fields.drop_last(), tag).push(fields.last())
    } else {
        with_tag(fields.drop_last(), tag)
    }
}

/// The number that some occurrences of a field stand for, where each of them is one.
pub open spec fn number(occurrences: Seq<RawView>) -> Option<u64>
    decreases occurrences.len(),
{
    if occurrences.len() == 0 {
        Some(0)
    } else if number(occurrences.drop_last()) is None {
        None
    } else {
        match occurrences.last().value {
            ValueView::Varint(n) => Some(n),
            _ => None,
        }
    }
}

/// The eight bytes that some occurrences of a field stand for, where each of them holds eight.
pub open spec fn fixed(occurrences: Seq<RawView>) -> Option<u64>
    decreases occurrences.len(),
{
    if occurrences.len() == 0 {
        Some(0)
    } else if fixed(occurrences.drop_last()) is None {
        None
    } else {
        match occurrences.last().value {
            ValueView::Fixed64(n) => Some(n),
            _ => None,
        }
    }
}

/// The text that some occurrences of a field stand for, where each of them is one.
pub open spec fn text(occurrences: Seq<RawView>) -> Option<Seq<char>>
    decreases occurrences.len(),
{
    if occurrences.len() == 0 {
        Some(Seq::empty())
    } else if text(occurrences.drop_last()) is None {
        None
    } else {
        match occurrences.last().value {
            ValueView::Bytes(bytes) => if valid_utf8(bytes) {
                Some(decode_utf8(bytes))
            } else {
                None
            },
            _ => None,
        }
    }
}

/// The fields of the message that some occurrences of a field make together, where `depth`
/// messages may still stand within each other.
pub open spec fn merged(occurrences: Seq<RawView>, depth: nat) -> Option<Seq<RawView>>
    decreases occurrences.len(),
{
    if occurrences.len() == 0 {
        Some(Seq::empty())
    } else if depth == 0 {
        None
    } else {
        match merged(occurrences.drop_last(), depth) {
            None => None,
            Some(earlier) => match occurrences.last().value {
                ValueView::Bytes(bytes) => match parsed(bytes, (depth - 1) as nat) {
                    None => None,
                    Some(fields) => Some(earlier + fields),
                },
                _ => None,
            },
        }
    }
}

/// The numbers that stand one behind the other in `bytes`.
pub open spec fn packed_numbers(bytes: Seq<u8>) -> Option<Seq<u32>>
    decreases bytes.len(),
{
    if bytes.len() == 0 {
        Some(Seq::empty())
    } else {
        match read_varint(bytes) {
            None => None,
            Some((value, length)) => if length == 0 || length > bytes.len() {
                None
            } else {
                match packed_numbers(bytes.skip(length as int)) {
                    None => None,
                    Some(rest) => Some(seq![low_half(value)] + rest),
                }
            },
        }
    }
}

/// The lower 32 bits of a number.
pub open spec fn low_half(value: nat) -> u32 {
    (value % 0x1_0000_0000) as u32
}

/// The list of numbers that some occurrences of a field make together.
pub open spec fn numbers(occurrences: Seq<RawView>) -> Option<Seq<u32>>
    decreases occurrences.len(),
{
    if occurrences.len() == 0 {
        Some(Seq::empty())
    } else {
        match numbers(occurrences.drop_last()) {
            None => None,
            Some(earlier) => match occurrences.last().value {
                ValueView::Varint(n) => Some(earlier.push(low_half(n as nat))),
                ValueView::Bytes(bytes) => match packed_numbers(bytes) {
                    None => None,
                    Some(more) => Some(earlier + more),
                },
                _ => None,
            },
        }
    }
}

/// Whether all fields are known by their numbers, or may be passed over.
pub open spec fn passable(fields: Seq<RawView>, low: u32, high: u32, depth: nat) -> bool {
    depth > 0 || forall|i: int|
        0 <= i < fields.len() ==> low <= (#[trigger] fields[i]).tag <= high
}

// ---- writing

/// A number, unless it is zero.
pub open spec fn number_slot(tag: u32, value: u64) -> Seq<RawView> {
    if value == 0 {
        Seq::empty()
    } else {
        seq![RawView { tag, value: ValueView::Varint(value) }]
    }
}

/// A truth value, unless it is false.
pub open spec fn flag_slot(tag: u32, value: bool) -> Seq<RawView> {
    number_slot(
        tag,
        if value {
            1
        } else {
            0
        },
    )
}

/// A text.
pub open spec fn text_field(tag: u32, value: Seq<char>) -> RawView {
    RawView { tag, value: ValueView::Bytes(encode_utf8(value)) }
}

/// A text, unless it is empty.
pub open spec fn text_slot(tag: u32, value: Seq<char>) -> Seq<RawView> {
    if value.len() == 0 {
        Seq::empty()
    } else {
        seq![text_field(tag, value)]
    }
}

/// A message within another.
pub open spec fn message_field(tag: u32, fields: Seq<RawView>) -> RawView {
    RawView { tag, value: ValueView::Bytes(message_bytes(fields)) }
}

/// Numbers one behind the other.
pub open spec fn pack(values: Seq<u32>) -> Seq<u8>
    decreases values.len(),
{
    if values.len() == 0 {
        Seq::empty()
    } else {
        pack(values.drop_last()) + varint(values.last() as nat)
    }
}

/// Numbers in one field, unless there are none.
pub open spec fn numbers_slot(tag: u32, values: Seq<u32>) -> Seq<RawView> {
    if values.len() == 0 {
        Seq::empty()
    } else {
        seq![RawView { tag, value: ValueView::Bytes(pack(values)) }]
    }
}

// ---- fields put together

/// Whether all fields have one number.
pub open spec fn all_tagged(fields: Seq<RawView>, tag: u32) -> bool {
    forall|i: int| 0 <= i < fields.len() ==> (#[trigger] fields[i]).tag == tag
}

pub broadcast proof fn with_tag_of_concatenation(a: Seq<RawView>, b: Seq<RawView>, tag: u32)
    ensures
        #[trigger] with_tag(a + b, tag) == with_tag(a, tag) + with_tag(b, tag),
    decreases b.len(),
{
    reveal(with_tag);
    if b.len() == 0 {
        assert(a + b =~= a);
        assert(with_tag(a, tag) + with_tag(b, tag) =~= with_tag(a, tag));
    } else {
        assert((a + b).drop_last() =~= a + b.drop_last());
        with_tag_of_concatenation(a, b.drop_last(), tag);
        assert(with_tag(a + b, tag) =~= with_tag(a, tag) + with_tag(b, tag));
    }
}

pub proof fn with_tag_of_tagged(fields: Seq<RawView>, own: u32, tag: u32)
    requires
        all_tagged(fields, own),
    ensures
        own == tag ==> with_tag(fields, tag) == fields,
        own != tag ==> with_tag(fields, tag) == Seq::<RawView>::empty(),
    decreases fields.len(),
{
    reveal(with_tag);
    if fields.len() > 0 {
        assert(fields.last().tag == own);
        assert forall|i: int| 0 <= i < fields.drop_last().len() implies (
        #[trigger] fields.drop_last()[i]).tag == own by {
            assert(fields.drop_last()[i] == fields[i]);
        }
        with_tag_of_tagged(fields.drop_last(), own, tag);
        assert(fields.drop_last().push(fields.last()) =~= fields);
    } else {
        assert(fields =~= Seq::empty());
    }
}

pub broadcast proof fn with_tag_of_number_slot(own: u32, value: u64, tag: u32)
    ensures
        #[trigger] with_tag(number_slot(own, value), tag) == if own == tag {
            number_slot(own, value)
        } else {
            Seq::empty()
        },
{
    with_tag_of_tagged(number_slot(own, value), own, tag);
}

pub broadcast proof fn with_tag_of_text_slot(own: u32, value: Seq<char>, tag: u32)
    ensures
        #[trigger] with_tag(text_slot(own, value), tag) == if own == tag {
            text_slot(own, value)
        } else {
            Seq::empty()
        },
{
    with_tag_of_tagged(text_slot(own, value), own, tag);
}

pub broadcast proof fn with_tag_of_numbers_slot(own: u32, values: Seq<u32>, tag: u32)
    ensures
        #[trigger] with_tag(numbers_slot(own, values), tag) == if own == tag {
            numbers_slot(own, values)
        } else {
            Seq::empty()
        },
{
    with_tag_of_tagged(numbers_slot(own, values), own, tag);
}

/// A number that was written reads back.
pub broadcast proof fn number_slot_reads_back(tag: u32, value: u64)
    ensures
        number(#[trigger] number_slot(tag, value)) == Some(value),
{
    if value != 0 {
        let fields = number_slot(tag, value);
        assert(fields.drop_last() =~= Seq::empty());
        assert(number(fields.drop_last()) == Some(0u64));
    }
}

/// A text that was written reads back.
pub proof fn text_field_reads_back(tag: u32, value: Seq<char>)
    ensures
        text(seq![text_field(tag, value)]) == Some(value),
{
    let fields = seq![text_field(tag, value)];
    assert(fields.drop_last() =~= Seq::empty());
    assert(text(fields.drop_last()) == Some(Seq::<char>::empty()));
    vstd::utf8::encode_utf8_valid_utf8(value);
    vstd::utf8::encode_utf8_decode_utf8(value);
}

/// A text that was written, unless it was empty, reads back.
pub broadcast proof fn text_slot_reads_back(tag: u32, value: Seq<char>)
    ensures
        text(#[trigger] text_slot(tag, value)) == Some(value),
{
    if value.len() > 0 {
        text_field_reads_back(tag, value);
    } else {
        assert(value =~= Seq::empty());
    }
}

proof fn pack_of_concatenation(a: Seq<u32>, b: Seq<u32>)
    ensures
        pack(a + b) == pack(a) + pack(b),
    decreases b.len(),
{
    if b.len() == 0 {
        assert(a + b =~= a);
        assert(pack(a) + pack(b) =~= pack(a));
    } else {
        assert((a + b).drop_last() =~= a + b.drop_last());
        pack_of_concatenation(a, b.drop_last());
        assert(pack(a + b) =~= pack(a) + pack(b));
    }
}

/// Numbers one behind the other read back.
pub proof fn pack_reads_back(values: Seq<u32>)
    ensures
        packed_numbers(pack(values)) == Some(values),
    decreases values.len(),
{
    if values.len() == 0 {
        assert(values =~= Seq::empty());
    } else {
        let first = values[0];
        let rest = values.drop_first();
        assert(seq![first] + rest =~= values);
        pack_of_concatenation(seq![first], rest);
        reveal_with_fuel(pack, 2);
        assert(seq![first].drop_last() =~= Seq::empty());
        assert(pack(seq![first]) =~= varint(first as nat));
        pack_reads_back(rest);
        varint_reads_back(first as nat, pack(rest), 0);
        let bytes = pack(values);
        assert(bytes.skip(varint(first as nat).len() as int) =~= pack(rest));
        assert(low_half(first as nat) == first);
    }
}

/// Numbers that were written read back.
pub broadcast proof fn numbers_slot_reads_back(tag: u32, values: Seq<u32>)
    ensures
        numbers(#[trigger] numbers_slot(tag, values)) == Some(values),
{
    let fields = numbers_slot(tag, values);
    if values.len() > 0 {
        pack_reads_back(values);
        assert(fields.drop_last() =~= Seq::empty());
        assert(numbers(fields.drop_last()) == Some(Seq::<u32>::empty()));
        assert(Seq::<u32>::empty() + values =~= values);
    } else {
        assert(values =~= Seq::empty());
    }
}

/// A message that was written within another reads back.
pub proof fn message_field_reads_back(tag: u32, fields: Seq<RawView>, depth: nat)
    requires
        all_writable(fields),
        depth > 0,
    ensures
        merged(seq![message_field(tag, fields)], depth) == Some(fields),
{
    let one = seq![message_field(tag, fields)];
    assert(one.drop_last() =~= Seq::empty());
    assert(merged(one.drop_last(), depth) == Some(Seq::<RawView>::empty()));
    message_reads_back(fields, (depth - 1) as nat);
    assert(Seq::<RawView>::empty() + fields =~= fields);
}

pub broadcast group group_slots {
    with_tag_of_concatenation,
    with_tag_of_number_slot,
    with_tag_of_text_slot,
    with_tag_of_numbers_slot,
    number_slot_reads_back,
    text_slot_reads_back,
    numbers_slot_reads_back,
}

/// The same for one number.
proof fn one_slot_stands_apart(
    a: Seq<RawView>,
    b: Seq<RawView>,
    c: Seq<RawView>,
    d: Seq<RawView>,
    e: Seq<RawView>,
    f: Seq<RawView>,
    g: Seq<RawView>,
    whole: Seq<RawView>,
    tag: u32,
)
    requires
        whole == a + b + c + d + e + f + g,
        all_tagged(a, 1),
        all_tagged(b, 2),
        all_tagged(c, 3),
        all_tagged(d, 4),
        all_tagged(e, 5),
        all_tagged(f, 6),
        all_tagged(g, 7),
    ensures
        tag == 1 ==> with_tag(whole, tag) == a,
        tag == 2 ==> with_tag(whole, tag) == b,
        tag == 3 ==> with_tag(whole, tag) == c,
        tag == 4 ==> with_tag(whole, tag) == d,
        tag == 5 ==> with_tag(whole, tag) == e,
        tag == 6 ==> with_tag(whole, tag) == f,
        tag == 7 ==> with_tag(whole, tag) == g,
{
    with_tag_of_tagged(a, 1, tag);
    with_tag_of_tagged(b, 2, tag);
    with_tag_of_tagged(c, 3, tag);
    with_tag_of_tagged(d, 4, tag);
    with_tag_of_tagged(e, 5, tag);
    with_tag_of_tagged(f, 6, tag);
    with_tag_of_tagged(g, 7, tag);
    with_tag_of_concatenation(a, b, tag);
    with_tag_of_concatenation(a + b, c, tag);
    with_tag_of_concatenation(a + b + c, d, tag);
    with_tag_of_concatenation(a + b + c + d, e, tag);
    with_tag_of_concatenation(a + b + c + d + e, f, tag);
    with_tag_of_concatenation(a + b + c + d + e + f, g, tag);
    let none = Seq::<RawView>::empty();
    let kept = |own: u32, part: Seq<RawView>| if own == tag { part } else { none };
    assert(with_tag(whole, tag) =~= kept(1, a) + kept(2, b) + kept(3, c) + kept(4, d) + kept(5, e)
        + kept(6, f) + kept(7, g));
    if tag == 1 {
        assert(with_tag(whole, tag) =~= a);
    } else if tag == 2 {
        assert(with_tag(whole, tag) =~= b);
    } else if tag == 3 {
        assert(with_tag(whole, tag) =~= c);
    } else if tag == 4 {
        assert(with_tag(whole, tag) =~= d);
    } else if tag == 5 {
        assert(with_tag(whole, tag) =~= e);
    } else if tag == 6 {
        assert(with_tag(whole, tag) =~= f);
    } else if tag == 7 {
        assert(with_tag(whole, tag) =~= g);
    }
}

/// A message made of the fields of the first seven numbers, in order: each number has its own.
pub proof fn slots_stand_apart(
    a: Seq<RawView>,
    b: Seq<RawView>,
    c: Seq<RawView>,
    d: Seq<RawView>,
    e: Seq<RawView>,
    f: Seq<RawView>,
    g: Seq<RawView>,
    whole: Seq<RawView>,
)
    requires
        whole == a + b + c + d + e + f + g,
        all_tagged(a, 1),
        all_tagged(b, 2),
        all_tagged(c, 3),
        all_tagged(d, 4),
        all_tagged(e, 5),
        all_tagged(f, 6),
        all_tagged(g, 7),
    ensures
        with_tag(whole, 1) == a,
        message_bytes(a).len() <= message_bytes(whole).len(),
        with_tag(whole, 2) == b,
        message_bytes(b).len() <= message_bytes(whole).len(),
        with_tag(whole, 3) == c,
        message_bytes(c).len() <= message_bytes(whole).len(),
        with_tag(whole, 4) == d,
        message_bytes(d).len() <= message_bytes(whole).len(),
        with_tag(whole, 5) == e,
        message_bytes(e).len() <= message_bytes(whole).len(),
        with_tag(whole, 6) == f,
        message_bytes(f).len() <= message_bytes(whole).len(),
        with_tag(whole, 7) == g,
        message_bytes(g).len() <= message_bytes(whole).len(),
{
    one_slot_stands_apart(a, b, c, d, e, f, g, whole, 1);
    one_slot_stands_apart(a, b, c, d, e, f, g, whole, 2);
    one_slot_stands_apart(a, b, c, d, e, f, g, whole, 3);
    one_slot_stands_apart(a, b, c, d, e, f, g, whole, 4);
    one_slot_stands_apart(a, b, c, d, e, f, g, whole, 5);
    one_slot_stands_apart(a, b, c, d, e, f, g, whole, 6);
    one_slot_stands_apart(a, b, c, d, e, f, g, whole, 7);
    message_bytes_of_concatenation(a, b);
    message_bytes_of_concatenation(a + b, c);
    message_bytes_of_concatenation(a + b + c, d);
    message_bytes_of_concatenation(a + b + c + d, e);
    message_bytes_of_concatenation(a + b + c + d + e, f);
    message_bytes_of_concatenation(a + b + c + d + e + f, g);
}

/// Nothing put behind a message changes it.
pub proof fn plus_nothing(fields: Seq<RawView>)
    ensures
        fields + Seq::<RawView>::empty() == fields,
{
    assert(fields + Seq::<RawView>::empty() =~= fields);
}

/// Sound parts make a sound message.
pub proof fn slots_are_sound(
    a: Seq<RawView>,
    b: Seq<RawView>,
    c: Seq<RawView>,
    d: Seq<RawView>,
    e: Seq<RawView>,
    f: Seq<RawView>,
    g: Seq<RawView>,
)
    requires
        all_sound(a),
        all_sound(b),
        all_sound(c),
        all_sound(d),
        all_sound(e),
        all_sound(f),
        all_sound(g),
    ensures
        all_sound(a + b + c + d + e + f + g),
{
}

// ---- reading

/// The occurrences of a field in a part of a message grow by one with the part, or not.
pub(crate) proof fn one_more(fields: Seq<RawView>, from: int, i: int, tag: u32)
    requires
        0 <= from <= i < fields.len(),
    ensures
        with_tag(fields.subrange(from, i + 1), tag) == if fields[i].tag == tag {
            with_tag(fields.subrange(from, i), tag).push(fields[i])
        } else {
            with_tag(fields.subrange(from, i), tag)
        },
{
    reveal(with_tag);
    assert(fields.subrange(from, i + 1).drop_last() =~= fields.subrange(from, i));
    assert(fields.subrange(from, i + 1).last() == fields[i]);
}

proof fn numbers_stay_bad(occurrences: Seq<RawView>, more: Seq<RawView>)
    ensures
        number(occurrences) is None ==> number(occurrences + more) is None,
        fixed(occurrences) is None ==> fixed(occurrences + more) is None,
        text(occurrences) is None ==> text(occurrences + more) is None,
        numbers(occurrences) is None ==> numbers(occurrences + more) is None,
    decreases more.len(),
{
    if more.len() > 0 {
        numbers_stay_bad(occurrences, more.drop_last());
        assert((occurrences + more).drop_last() =~= occurrences + more.drop_last());
    } else {
        assert(occurrences + more =~= occurrences);
    }
}

proof fn merged_stays_bad(occurrences: Seq<RawView>, more: Seq<RawView>, depth: nat)
    requires
        merged(occurrences, depth) is None,
    ensures
        merged(occurrences + more, depth) is None,
    decreases more.len(),
{
    if more.len() > 0 {
        merged_stays_bad(occurrences, more.drop_last(), depth);
        assert((occurrences + more).drop_last() =~= occurrences + more.drop_last());
    } else {
        assert(occurrences + more =~= occurrences);
    }
}

/// The occurrences of a field in a part of a message start those in a larger part.
pub(crate) proof fn occurrences_extend(fields: Seq<RawView>, from: int, i: int, to: int, tag: u32)
    requires
        0 <= from <= i <= to <= fields.len(),
    ensures
        with_tag(fields.subrange(from, to), tag) == with_tag(fields.subrange(from, i), tag)
            + with_tag(fields.subrange(i, to), tag),
{
    assert(fields.subrange(from, to) =~= fields.subrange(from, i) + fields.subrange(i, to));
    with_tag_of_concatenation(fields.subrange(from, i), fields.subrange(i, to), tag);
}

/// The number in a part of a message.
pub fn number_in(fields: &Vec<RawField>, from: usize, to: usize, tag: u32) -> (r: Option<u64>)
    requires
        from <= to <= fields.len(),
    ensures
        r == number(with_tag(raw_views(fields@).subrange(from as int, to as int), tag)),
{
    let ghost views = raw_views(fields@);
    let mut value: u64 = 0;
    proof {
        assert(views.subrange(from as int, from as int) =~= Seq::empty());
        reveal(with_tag);
    }
    for i in from..to
        invariant
            from <= to <= fields.len(),
            views == raw_views(fields@),
            number(with_tag(views.subrange(from as int, i as int), tag)) == Some(value),
    {
        proof {
            one_more(views, from as int, i as int, tag);
            occurrences_extend(views, from as int, i + 1, to as int, tag);
            numbers_stay_bad(
                with_tag(views.subrange(from as int, i + 1), tag),
                with_tag(views.subrange(i + 1, to as int), tag),
            );
            assert(views[i as int] == fields@[i as int]@);
            let earlier = with_tag(views.subrange(from as int, i as int), tag);
            assert(earlier.push(views[i as int]).drop_last() =~= earlier);
        }
        if fields[i].tag == tag {
            match &fields[i].value {
                FieldValue::Varint(n) => {
                    value = *n;
                },
                _ => return None,
            }
        }
    }
    Some(value)
}

/// The eight bytes in a part of a message.
pub fn fixed_in(fields: &Vec<RawField>, from: usize, to: usize, tag: u32) -> (r: Option<u64>)
    requires
        from <= to <= fields.len(),
    ensures
        r == fixed(with_tag(raw_views(fields@).subrange(from as int, to as int), tag)),
{
    let ghost views = raw_views(fields@);
    let mut value: u64 = 0;
    proof {
        assert(views.subrange(from as int, from as int) =~= Seq::empty());
        reveal(with_tag);
    }
    for i in from..to
        invariant
            from <= to <= fields.len(),
            views == raw_views(fields@),
            fixed(with_tag(views.subrange(from as int, i as int), tag)) == Some(value),
    {
        proof {
            one_more(views, from as int, i as int, tag);
            occurrences_extend(views, from as int, i + 1, to as int, tag);
            numbers_stay_bad(
                with_tag(views.subrange(from as int, i + 1), tag),
                with_tag(views.subrange(i + 1, to as int), tag),
            );
            assert(views[i as int] == fields@[i as int]@);
            let earlier = with_tag(views.subrange(from as int, i as int), tag);
            assert(earlier.push(views[i as int]).drop_last() =~= earlier);
        }
        if fields[i].tag == tag {
            match &fields[i].value {
                FieldValue::Fixed64(n) => {
                    value = *n;
                },
                _ => return None,
            }
        }
    }
    Some(value)
}

/// `String::from_utf8`: the text with the given bytes, where they are valid UTF-8.
#[verifier::external_body]
fn text_of_bytes(bytes: Vec<u8>) -> (r: Option<String>)
    ensures
        match r {
            Some(s) => valid_utf8(bytes@) && encode_utf8(s@) == bytes@,
            None => !valid_utf8(bytes@),
        },
{
    String::from_utf8(bytes).ok()
}

fn copy_bytes(bytes: &Vec<u8>) -> (r: Vec<u8>)
    ensures
        r@ == bytes@,
{
    let r = bytes.clone();
    proof {
        assert(r@ =~= bytes@);
    }
    r
}

/// The text in a part of a message.
pub fn text_in(fields: &Vec<RawField>, from: usize, to: usize, tag: u32) -> (r: Option<String>)
    requires
        from <= to <= fields.len(),
    ensures
        match r {
            Some(s) => text(
                with_tag(raw_views(fields@).subrange(from as int, to as int), tag),
            ) == Some(s@),
            None => text(
                with_tag(raw_views(fields@).subrange(from as int, to as int), tag),
            ) is None,
        },
{
    let ghost views = raw_views(fields@);
    let mut value: String = String::new();
    proof {
        assert(views.subrange(from as int, from as int) =~= Seq::empty());
        reveal(with_tag);
    }
    for i in from..to
        invariant
            from <= to <= fields.len(),
            views == raw_views(fields@),
            text(with_tag(views.subrange(from as int, i as int), tag)) == Some(value@),
    {
        proof {
            one_more(views, from as int, i as int, tag);
            occurrences_extend(views, from as int, i + 1, to as int, tag);
            numbers_stay_bad(
                with_tag(views.subrange(from as int, i + 1), tag),
                with_tag(views.subrange(i + 1, to as int), tag),
            );
            assert(views[i as int] == fields@[i as int]@);
            let earlier = with_tag(views.subrange(from as int, i as int), tag);
            assert(earlier.push(views[i as int]).drop_last() =~= earlier);
        }
        if fields[i].tag == tag {
            match &fields[i].value {
                FieldValue::Bytes(bytes) => {
                    match text_of_bytes(copy_bytes(bytes)) {
                        Some(s) => {
                            proof {
                                vstd::utf8::encode_utf8_decode_utf8(s@);
                            }
                            value = s;
                        },
                        None => return None,
                    }
                },
                _ => return None,
            }
        }
    }
    Some(value)
}

/// The fields of the message that the occurrences of a field in a part of a message make together.
pub fn merged_in(fields: &Vec<RawField>, from: usize, to: usize, tag: u32, depth: u32) -> (r:
    Option<Vec<RawField>>)
    requires
        from <= to <= fields.len(),
    ensures
        match r {
            Some(inner) => merged(
                with_tag(raw_views(fields@).subrange(from as int, to as int), tag),
                depth as nat,
            ) == Some(raw_views(inner@)),
            None => merged(
                with_tag(raw_views(fields@).subrange(from as int, to as int), tag),
                depth as nat,
            ) is None,
        },
{
    let ghost views = raw_views(fields@);
    let mut inner: Vec<RawField> = Vec::new();
    proof {
        assert(views.subrange(from as int, from as int) =~= Seq::empty());
        reveal(with_tag);
        assert(raw_views(inner@) =~= Seq::empty());
    }
    for i in from..to
        invariant
            from <= to <= fields.len(),
            views == raw_views(fields@),
            merged(with_tag(views.subrange(from as int, i as int), tag), depth as nat) == Some(
                raw_views(inner@),
            ),
    {
        proof {
            one_more(views, from as int, i as int, tag);
            occurrences_extend(views, from as int, i + 1, to as int, tag);
            if merged(with_tag(views.subrange(from as int, i + 1), tag), depth as nat) is None {
                merged_stays_bad(
                    with_tag(views.subrange(from as int, i + 1), tag),
                    with_tag(views.subrange(i + 1, to as int), tag),
                    depth as nat,
                );
            }
            assert(views[i as int] == fields@[i as int]@);
            let earlier = with_tag(views.subrange(from as int, i as int), tag);
            assert(earlier.push(views[i as int]).drop_last() =~= earlier);
        }
        if fields[i].tag == tag {
            if depth == 0 {
                return None;
            }
            match &fields[i].value {
                FieldValue::Bytes(bytes) => {
                    match parse_message(bytes, depth - 1) {
                        Some(more) => {
                            let mut more = more;
                            let ghost first = inner@;
                            let ghost second = more@;
                            inner.append(&mut more);
                            proof {
                                assert(raw_views(inner@) =~= raw_views(first) + raw_views(second));
                            }
                        },
                        None => return None,
                    }
                },
                _ => return None,
            }
        }
    }
    Some(inner)
}

/// Whether a field occurs in a part of a message.
pub fn occurs_in(fields: &Vec<RawField>, from: usize, to: usize, tag: u32) -> (r: bool)
    requires
        from <= to <= fields.len(),
    ensures
        r == (with_tag(raw_views(fields@).subrange(from as int, to as int), tag).len() > 0),
{
    let ghost views = raw_views(fields@);
    proof {
        assert(views.subrange(from as int, from as int) =~= Seq::empty());
        reveal(with_tag);
    }
    for i in from..to
        invariant
            from <= to <= fields.len(),
            views == raw_views(fields@),
            with_tag(views.subrange(from as int, i as int), tag).len() == 0,
    {
        proof {
            one_more(views, from as int, i as int, tag);
            occurrences_extend(views, from as int, i + 1, to as int, tag);
            assert(views[i as int] == fields@[i as int]@);
        }
        if fields[i].tag == tag {
            return true;
        }
    }
    false
}

/// The numbers that stand one behind the other in `bytes`.
fn unpack_numbers(bytes: &Vec<u8>) -> (r: Option<Vec<u32>>)
    ensures
        match r {
            Some(values) => packed_numbers(bytes@) == Some(values@),
            None => packed_numbers(bytes@) is None,
        },
{
    let mut values: Vec<u32> = Vec::new();
    let mut at: usize = 0;
    proof {
        assert(bytes@.skip(0) =~= bytes@);
        if let Some(all) = packed_numbers(bytes@) {
            assert(values@ + all =~= all);
        }
    }
    while at < bytes.len()
        invariant
            at <= bytes.len(),
            match packed_numbers(bytes@.skip(at as int)) {
                Some(rest) => packed_numbers(bytes@) == Some(values@ + rest),
                None => packed_numbers(bytes@) is None,
            },
        decreases bytes.len() - at,
    {
        let ghost start = bytes@.skip(at as int);
        match varint_at(bytes, at, 0) {
            None => return None,
            Some((value, length)) => {
                let ghost earlier = values@;
                let low: u32 = (value % 0x1_0000_0000) as u32;
                values.push(low);
                proof {
                    assert(start.skip(length as int) =~= bytes@.skip(at + length));
                    if let Some(rest) = packed_numbers(bytes@.skip(at + length)) {
                        assert(earlier + (seq![low] + rest) =~= values@ + rest);
                    }
                }
                at = at + length;
            },
        }
    }
    proof {
        assert(bytes@.skip(at as int) =~= Seq::empty());
        assert(values@ + Seq::<u32>::empty() =~= values@);
    }
    Some(values)
}

/// The list of numbers in a message.
pub fn numbers_in(fields: &Vec<RawField>, tag: u32) -> (r: Option<Vec<u32>>)
    ensures
        match r {
            Some(values) => numbers(with_tag(raw_views(fields@), tag)) == Some(values@),
            None => numbers(with_tag(raw_views(fields@), tag)) is None,
        },
{
    let ghost views = raw_views(fields@);
    let to: usize = fields.len();
    let mut values: Vec<u32> = Vec::new();
    proof {
        assert(views.subrange(0, 0) =~= Seq::empty());
        reveal(with_tag);
        assert(views.subrange(0, to as int) =~= views);
        assert(values@ =~= Seq::empty());
    }
    for i in 0..to
        invariant
            to == fields.len(),
            views == raw_views(fields@),
            views.subrange(0, to as int) == views,
            numbers(with_tag(views.subrange(0, i as int), tag)) == Some(values@),
    {
        proof {
            one_more(views, 0, i as int, tag);
            occurrences_extend(views, 0, i + 1, to as int, tag);
            numbers_stay_bad(
                with_tag(views.subrange(0, i + 1), tag),
                with_tag(views.subrange(i + 1, to as int), tag),
            );
            assert(views[i as int] == fields@[i as int]@);
            let earlier = with_tag(views.subrange(0, i as int), tag);
            assert(earlier.push(views[i as int]).drop_last() =~= earlier);
        }
        if fields[i].tag == tag {
            match &fields[i].value {
                FieldValue::Varint(n) => {
                    values.push((*n % 0x1_0000_0000) as u32);
                },
                FieldValue::Bytes(bytes) => {
                    match unpack_numbers(bytes) {
                        Some(more) => {
                            let mut more = more;
                            values.append(&mut more);
                        },
                        None => return None,
                    }
                },
                _ => return None,
            }
        }
    }
    Some(values)
}

/// Whether all fields are known by their numbers, or may be passed over.
pub fn all_passable(fields: &Vec<RawField>, low: u32, high: u32, depth: u32) -> (r: bool)
    ensures
        r == passable(raw_views(fields@), low, high, depth as nat),
{
    if depth > 0 {
        return true;
    }
    let ghost views = raw_views(fields@);
    for i in 0..fields.len()
        invariant
            views == raw_views(fields@),
            depth == 0,
            forall|k: int| 0 <= k < i ==> low <= (#[trigger] views[k]).tag <= high,
    {
        proof {
            assert(views[i as int].tag == fields@[i as int].tag);
        }
        if fields[i].tag < low || fields[i].tag > high {
            return false;
        }
    }
    true
}

// ---- writing

/// Appends a number, unless it is zero.
pub fn push_number(fields: &mut Vec<RawField>, tag: u32, value: u64)
    ensures
        raw_views(final(fields)@) == raw_views(old(fields)@) + number_slot(tag, value),
{
    if value != 0 {
        fields.push(RawField { tag, value: FieldValue::Varint(value) });
    }
    proof {
        assert(raw_views(fields@) =~= raw_views(old(fields)@) + number_slot(tag, value));
    }
}

/// Appends a truth value, unless it is false.
pub fn push_flag(fields: &mut Vec<RawField>, tag: u32, value: bool)
    ensures
        raw_views(final(fields)@) == raw_views(old(fields)@) + flag_slot(tag, value),
{
    push_number(
        fields,
        tag,
        if value {
            1
        } else {
            0
        },
    );
}

/// Appends a text.
pub fn push_text(fields: &mut Vec<RawField>, tag: u32, value: &str)
    ensures
        raw_views(final(fields)@) == raw_views(old(fields)@).push(text_field(tag, value@)),
{
    let bytes = value.as_bytes_vec();
    fields.push(RawField { tag, value: FieldValue::Bytes(bytes) });
    proof {
        assert(raw_views(fields@) =~= raw_views(old(fields)@).push(text_field(tag, value@)));
    }
}

/// Appends a text, unless it is empty.
pub fn push_text_slot(fields: &mut Vec<RawField>, tag: u32, value: &str)
    ensures
        raw_views(final(fields)@) == raw_views(old(fields)@) + text_slot(tag, value@),
{
    if !value.is_empty() {
        push_text(fields, tag, value);
    }
    proof {
        assert(raw_views(fields@) =~= raw_views(old(fields)@) + text_slot(tag, value@));
    }
}

/// Appends a message.
pub fn push_message(fields: &mut Vec<RawField>, tag: u32, inner: &Vec<RawField>)
    requires
        all_sound(raw_views(inner@)),
    ensures
        raw_views(final(fields)@) == raw_views(old(fields)@).push(
            message_field(tag, raw_views(inner@)),
        ),
{
    let bytes = write_message(inner);
    fields.push(RawField { tag, value: FieldValue::Bytes(bytes) });
    proof {
        assert(raw_views(fields@) =~= raw_views(old(fields)@).push(
            message_field(tag, raw_views(inner@)),
        ));
    }
}

/// Appends numbers in one field, unless there are none.
pub fn push_numbers(fields: &mut Vec<RawField>, tag: u32, values: &Vec<u32>)
    ensures
        raw_views(final(fields)@) == raw_views(old(fields)@) + numbers_slot(tag, values@),
{
    let ghost earlier = raw_views(fields@);
    if values.len() == 0 {
        proof {
            assert(earlier + numbers_slot(tag, values@) =~= earlier);
        }
        return ;
    }
    let mut bytes: Vec<u8> = Vec::new();
    proof {
        assert(values@.take(0) =~= Seq::empty());
        assert(bytes@ =~= Seq::empty());
    }
    for i in 0..values.len()
        invariant
            bytes@ == pack(values@.take(i as int)),
    {
        proof {
            assert(values@.take(i + 1).drop_last() =~= values@.take(i as int));
            assert(values@.take(i + 1).last() == values@[i as int]);
        }
        write_varint(&mut bytes, values[i] as u64);
    }
    proof {
        assert(values@.take(values.len() as int) =~= values@);
    }
    fields.push(RawField { tag, value: FieldValue::Bytes(bytes) });
    proof {
        assert(raw_views(fields@) =~= earlier + numbers_slot(tag, values@));
    }
}

} // verus!
